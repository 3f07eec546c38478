extern "C" __global__ void kv_store_paged(const float* kv, float* pool,
                                          const int* pos_buf,
                                          const int* table_offsets,
                                          const int* block_tables,
                                          int batch, int kv_heads, int head_dim,
                                          int tokens_per_page) {
    int idx = blockIdx.x * blockDim.x + threadIdx.x;
    int total = batch * kv_heads * head_dim;
    if (idx < total) {
        int s = idx / (kv_heads * head_dim);
        int i = idx % (kv_heads * head_dim);
        int p = pos_buf[s];
        int logical = p / tokens_per_page;
        int off = p % tokens_per_page;
        int page = block_tables[table_offsets[s] + logical];
        pool[((long long)page * tokens_per_page + off) * kv_heads * head_dim + i] =
            kv[(long long)s * kv_heads * head_dim + i];
    }
}
