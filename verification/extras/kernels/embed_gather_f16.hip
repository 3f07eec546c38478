 
__device__ inline float f16_to_f32(unsigned short h) {
    union { _Float16 h; unsigned short u; } c;
    c.u = h;
    return (float)c.h;
}

extern "C" __global__ void embed_gather_f16(const int* tok, const unsigned short* emb,
                                            float* x, int cols, int batch) {
    int s = blockIdx.y;
    int i = blockIdx.x * blockDim.x + threadIdx.x;
    if (i < cols) x[(long long)s * cols + i] = f16_to_f32(emb[(long long)tok[s] * cols + i]);
}
