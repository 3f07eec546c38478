__device__ inline float gemv_f16_val(unsigned short h) {
    union { _Float16 h; unsigned short u; } c;
    c.u = h;
    return (float)c.h;
}
extern "C" __global__ void gemv_f16(
    const float* __restrict__ x,
    const unsigned short* __restrict__ w,
    float* __restrict__ out,
    int n, int d) {
    extern __shared__ float sx[];
    const int b = blockIdx.y;
    for (int k = threadIdx.x; k < d; k += blockDim.x) sx[k] = x[(long long)b * d + k];
    __syncthreads();
    const int warp = (blockIdx.x * blockDim.x + threadIdx.x) / 32;
    const int lane = threadIdx.x & 31;
    if (warp >= n) return;
    const unsigned short* wj = w + (long long)warp * d;
    float acc = 0.f;
    for (int k = lane; k < d; k += 32) acc += sx[k] * gemv_f16_val(wj[k]);
    for (int off = 16; off > 0; off >>= 1) acc += __shfl_down(acc, off);
    if (lane == 0) out[(long long)b * n + warp] = acc;
}
