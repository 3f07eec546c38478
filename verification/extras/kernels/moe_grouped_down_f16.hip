__device__ inline float f16_bits_to_f32(unsigned short u) {
    union { _Float16 h; unsigned short u; } c;
    c.u = u;
    return (float)c.h;
}
extern "C" __global__ void moe_grouped_down_f16(
    const float* __restrict__ eh,
    const int* __restrict__ ids,
    const unsigned short* __restrict__ wd,
    float* __restrict__ down_all,
    int rows, int d, int einter) {
    __shared__ float s_acc[128];
    int r = blockIdx.x;
    int o = blockIdx.y;
    int e = ids[r];
    long long wbase = ((long long)e * d + o) * einter;
    const float* eh_r = eh + (long long)r * einter;
    float acc = 0.f;
    for (int k = threadIdx.x; k < einter; k += blockDim.x) {
        acc += eh_r[k] * f16_bits_to_f32(wd[wbase + k]);
    }
    s_acc[threadIdx.x] = acc;
    __syncthreads();
    for (int off = blockDim.x / 2; off > 0; off >>= 1) {
        if (threadIdx.x < off) s_acc[threadIdx.x] += s_acc[threadIdx.x + off];
        __syncthreads();
    }
    if (threadIdx.x == 0) down_all[(long long)r * d + o] = s_acc[0];
}
