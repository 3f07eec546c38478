extern "C" __global__ void moe_scatter_add(
    float* __restrict__ h_acc,
    const int* __restrict__ row_idx,
    const float* __restrict__ gw,
    const float* __restrict__ down,
    int cnt, int d) {
    int i = blockIdx.x * blockDim.x + threadIdx.x;
    int total = cnt * d;
    if (i < total) {
        int j = i / d;
        int c = i % d;
        int t = row_idx[j];
        h_acc[(long long)t * d + c] += gw[j] * down[(long long)j * d + c];
    }
}
