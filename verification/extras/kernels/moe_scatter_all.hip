extern "C" __global__ void moe_scatter_all(
    float* __restrict__ h_acc,
    const float* __restrict__ w,
    const float* __restrict__ down,
    int b, int topk, int d) {
    int i = blockIdx.x * blockDim.x + threadIdx.x;
    long long total = (long long)b * d;
    if ((long long)i < total) {
        int t = (int)(i / d);
        int c = (int)(i % d);
        float acc = 0.f;
        for (int k = 0; k < topk; k++) {
            int j = t * topk + k;
            acc += w[j] * down[(long long)j * d + c];
        }
        h_acc[(long long)t * d + c] = acc;
    }
}
