extern "C" __global__ void moe_accumulate(
    float* __restrict__ x,
    const float* __restrict__ down_all,
    const float* __restrict__ w,
    int d, int topk) {
    int i = blockIdx.x * blockDim.x + threadIdx.x;
    if (i < d) {
        float acc = 0.0f;
        for (int k = 0; k < topk; k++) acc += w[k] * down_all[(long long)k * d + i];
        x[i] += acc;
    }
}
