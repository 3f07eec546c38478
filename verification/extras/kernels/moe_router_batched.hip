extern "C" __global__ void moe_router_batched(
    const float* __restrict__ logits,
    int* __restrict__ out_ids,
    float* __restrict__ out_w,
    int ne, int topk, int batch) {
    int s = blockIdx.x;
    const float* lg = logits + (long long)s * ne;
    int* ids = out_ids + (long long)s * topk;
    float* w = out_w + (long long)s * topk;
    extern __shared__ float sm[];
    float* probs = sm;
    __shared__ float red[256];
    float maxv = -1e30f;
    for (int i = threadIdx.x; i < ne; i += blockDim.x) maxv = fmaxf(maxv, lg[i]);
    red[threadIdx.x] = maxv;
    __syncthreads();
    for (int st = blockDim.x / 2; st > 0; st >>= 1) {
        if (threadIdx.x < st) red[threadIdx.x] = fmaxf(red[threadIdx.x], red[threadIdx.x + st]);
        __syncthreads();
    }
    float m = red[0];
    float sumv = 0.0f;
    for (int i = threadIdx.x; i < ne; i += blockDim.x) {
        probs[i] = __expf(lg[i] - m);
        sumv += probs[i];
    }
    red[threadIdx.x] = sumv;
    __syncthreads();
    for (int st = blockDim.x / 2; st > 0; st >>= 1) {
        if (threadIdx.x < st) red[threadIdx.x] += red[threadIdx.x + st];
        __syncthreads();
    }
    float inv = 1.0f / red[0];
    for (int i = threadIdx.x; i < ne; i += blockDim.x) probs[i] *= inv;
    __syncthreads();
    // Top-k selection, one parallel argmax round per k (all 256 threads
    // scan their strided slice, then a tree reduce picks the winner): the
    // routing is on the hot path. Tie-break matches a serial scan exactly: larger prob wins,
    // ties go to the smaller index; already-selected ids are skipped.
    __shared__ float bval[256];
    __shared__ int bidx[256];
    float norm = 0.0f;
    for (int k = 0; k < topk; k++) {
        float bestv = -1e30f;
        int besti = -1;
        for (int i = threadIdx.x; i < ne; i += blockDim.x) {
            int used = 0;
            for (int j = 0; j < k; j++) {
                if (ids[j] == i) { used = 1; break; }
            }
            if (!used) {
                if (probs[i] > bestv || (probs[i] == bestv && (besti < 0 || i < besti))) {
                    bestv = probs[i];
                    besti = i;
                }
            }
        }
        bval[threadIdx.x] = bestv;
        bidx[threadIdx.x] = besti;
        __syncthreads();
        for (int st = blockDim.x / 2; st > 0; st >>= 1) {
            if (threadIdx.x < st) {
                float v2 = bval[threadIdx.x + st];
                int i2 = bidx[threadIdx.x + st];
                if (v2 > bval[threadIdx.x]
                    || (v2 == bval[threadIdx.x]
                        && (bidx[threadIdx.x] < 0
                            || (i2 >= 0 && i2 < bidx[threadIdx.x])))) {
                    bval[threadIdx.x] = v2;
                    bidx[threadIdx.x] = i2;
                }
            }
            __syncthreads();
        }
        if (threadIdx.x == 0) {
            // Degenerate rows (all -inf/NaN logits: no thread finds a
            // candidate, besti stays -1) must not emit a negative expert id —
            // the grouped GEMV kernels read `wg[ids[r]]` and would go
            // OOB. Clamp to a valid id; the row's output is garbage either
            // way (NaN upstream), but memory access stays in-bounds.
            int sel = bidx[0];
            if (sel < 0) sel = 0;
            ids[k] = sel;
            norm += bval[0];
        }
        __syncthreads();
    }
    if (threadIdx.x == 0) {
        for (int k = 0; k < topk; k++) w[k] = probs[ids[k]] / norm;
    }
}
