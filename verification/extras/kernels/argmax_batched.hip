extern "C" __global__ void argmax_batched(const float* logits, int* out_tok,
                                          int vocab, int batch) {
    int s = blockIdx.x;
    const float* row = logits + (long long)s * vocab;
    __shared__ float s_val[256];
    __shared__ int s_idx[256];
    float v = -1e30f;
    int idx = -1;
    for (int i = threadIdx.x; i < vocab; i += blockDim.x) {
        if (row[i] > v || (row[i] == v && i < idx)) {
            v = row[i];
            idx = i;
        }
    }
    s_val[threadIdx.x] = v;
    s_idx[threadIdx.x] = idx;
    __syncthreads();
    for (int st = blockDim.x / 2; st > 0; st >>= 1) {
        if (threadIdx.x < st) {
            float a = s_val[threadIdx.x + st];
            float b = s_val[threadIdx.x];
            int ai = s_idx[threadIdx.x + st];
            int bi = s_idx[threadIdx.x];
            if (a > b || (a == b && ai < bi)) {
                s_val[threadIdx.x] = a;
                s_idx[threadIdx.x] = ai;
            }
        }
        __syncthreads();
    }
    if (threadIdx.x == 0) out_tok[s] = s_idx[0];
}
