extern "C" __global__ void moe_router(
    const float* __restrict__ logits,
    int* __restrict__ out_ids,
    float* __restrict__ out_w,
    int ne, int topk) {
    extern __shared__ float sm[];
    float* probs = sm;
    __shared__ float red[256];
    float maxv = -1e30f;
    for (int i = threadIdx.x; i < ne; i += blockDim.x) maxv = fmaxf(maxv, logits[i]);
    red[threadIdx.x] = maxv;
    __syncthreads();
    for (int s = blockDim.x / 2; s > 0; s >>= 1) {
        if (threadIdx.x < s) red[threadIdx.x] = fmaxf(red[threadIdx.x], red[threadIdx.x + s]);
        __syncthreads();
    }
    float m = red[0];
    float sumv = 0.0f;
    for (int i = threadIdx.x; i < ne; i += blockDim.x) {
        probs[i] = __expf(logits[i] - m);
        sumv += probs[i];
    }
    red[threadIdx.x] = sumv;
    __syncthreads();
    for (int s = blockDim.x / 2; s > 0; s >>= 1) {
        if (threadIdx.x < s) red[threadIdx.x] += red[threadIdx.x + s];
        __syncthreads();
    }
    float inv = 1.0f / red[0];
    for (int i = threadIdx.x; i < ne; i += blockDim.x) probs[i] *= inv;
    __syncthreads();
    if (threadIdx.x == 0) {
        float norm = 0.0f;
        for (int k = 0; k < topk; k++) {
            int best = -1;
            float bestv = -1e30f;
            for (int i = 0; i < ne; i++) {
                int used = 0;
                for (int j = 0; j < k; j++) {
                    if (out_ids[j] == i) { used = 1; break; }
                }
                if (!used) {
                    if (probs[i] > bestv || (probs[i] == bestv && (best < 0 || i < best))) {
                        bestv = probs[i];
                        best = i;
                    }
                }
            }
            out_ids[k] = best;
            norm += probs[best];
        }
        for (int k = 0; k < topk; k++) out_w[k] = probs[out_ids[k]] / norm;
    }
}
