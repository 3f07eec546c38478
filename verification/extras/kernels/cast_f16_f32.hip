__device__ inline float f16_to_f32(unsigned short h) {
    union { _Float16 h; unsigned short u; } c;
    c.u = h;
    return (float)c.h;
}

extern "C" __global__ void cast_f16_f32(const unsigned short* x, float* y, int n) {
    int i = blockIdx.x * blockDim.x + threadIdx.x;
    if (i < n) y[i] = f16_to_f32(x[i]);
}
