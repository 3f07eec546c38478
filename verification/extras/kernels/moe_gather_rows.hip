extern "C" __global__ void moe_gather_rows(
    const float* __restrict__ x,
    const int* __restrict__ ids,
    const float* __restrict__ w,
    const int* __restrict__ offsets,
    int* __restrict__ pos,
    float* __restrict__ xg,
    float* __restrict__ gw,
    int* __restrict__ row_idx,
    int batch, int topk, int d) {
    int i = blockIdx.x * blockDim.x + threadIdx.x;
    int total = batch * topk;
    if (i < total) {
        int t = i / topk;
        int k = i % topk;
        int e = ids[i];
        int j = atomicAdd(&pos[e], 1);
        int dst = offsets[e] + j;
        row_idx[dst] = t;
        gw[dst] = w[i];
        const float* src = x + (long long)t * d;
        float* dstp = xg + (long long)dst * d;
        for (int c = 0; c < d; c++) dstp[c] = src[c];
    }
}
