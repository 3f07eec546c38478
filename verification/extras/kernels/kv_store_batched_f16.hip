__device__ inline unsigned short f32_to_f16_bits(float x) {
    _Float16 h = (_Float16)x;
    union { _Float16 h; unsigned short u; } c;
    c.h = h;
    return c.u;
}

__device__ inline float f16_bits_to_f32(unsigned short u) {
    union { _Float16 h; unsigned short u; } c;
    c.u = u;
    return (float)c.h;
}

extern "C" __global__ void kv_store_batched_f16(const float* kv,
                                                unsigned short* cache,
                                                const int* pos_buf, const int* slots,
                                                int batch, int kv_heads, int head_dim,
                                                int max_seq) {
    int idx = blockIdx.x * blockDim.x + threadIdx.x;
    int total = batch * kv_heads * head_dim;
    if (idx < total) {
        int s = idx / (kv_heads * head_dim);
        int i = idx % (kv_heads * head_dim);
        int p = pos_buf[s];
        cache[((long long)slots[s] * max_seq + p) * kv_heads * head_dim + i] =
            f32_to_f16_bits(kv[(long long)s * kv_heads * head_dim + i]);
    }
}
