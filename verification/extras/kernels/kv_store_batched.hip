extern "C" __global__ void kv_store_batched(const float* kv, float* cache,
                                            const int* pos_buf, const int* slots,
                                            int batch, int kv_heads, int head_dim,
                                            int max_seq) {
    int idx = blockIdx.x * blockDim.x + threadIdx.x;
    int total = batch * kv_heads * head_dim;
    if (idx < total) {
        int s = idx / (kv_heads * head_dim);
        int i = idx % (kv_heads * head_dim);
        int p = pos_buf[s];
        cache[((long long)slots[s] * max_seq + p) * kv_heads * head_dim + i] =
            kv[(long long)s * kv_heads * head_dim + i];
    }
}
