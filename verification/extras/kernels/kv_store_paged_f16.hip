__device__ inline unsigned short f32_to_f16_bits(float x) {
    _Float16 h = (_Float16)x;
    union { _Float16 h; unsigned short u; } c;
    c.h = h;
    return c.u;
}

extern "C" __global__ void kv_store_paged_f16(const float* kv,
                                              unsigned short* pool,
                                              const int* pos_buf,
                                              const int* table_offsets,
                                              const int* block_tables,
                                              int batch, int kv_heads, int head_dim,
                                              int tokens_per_page) {
    int idx = blockIdx.x * blockDim.x + threadIdx.x;
    int total = batch * kv_heads * head_dim;
    if (idx < total) {
        int s = idx / (kv_heads * head_dim);
        int i = idx % (kv_heads * head_dim);
        int p = pos_buf[s];
        int logical = p / tokens_per_page;
        int off = p % tokens_per_page;
        int page = block_tables[table_offsets[s] + logical];
        pool[((long long)page * tokens_per_page + off) * kv_heads * head_dim + i] =
            f32_to_f16_bits(kv[(long long)s * kv_heads * head_dim + i]);
    }
}
