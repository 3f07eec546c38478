extern "C" __global__ void moe_prefix_sum(const int* counts, int* offsets, int ne) {
    __shared__ int sm[256];
    int i = threadIdx.x;
    int v = (i < ne) ? counts[i] : 0;
    sm[i] = v;
    __syncthreads();
    for (int off = 1; off < 256; off <<= 1) {
        int t = 0;
        if (i >= off) t = sm[i - off];
        __syncthreads();
        sm[i] = sm[i] + t;
        __syncthreads();
    }
    if (i < ne) {
        offsets[i] = sm[i] - v; // exclusive prefix
    }
}
