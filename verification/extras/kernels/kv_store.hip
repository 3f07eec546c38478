 
extern "C" __global__ void kv_store(const float* kv, float* cache, const int* pos_buf,
                                    int kv_heads, int head_dim, int max_seq) {
    int p = *pos_buf;
    int total = kv_heads * head_dim;
    for (int i = threadIdx.x; i < total; i += blockDim.x) {
        cache[((long long)p * kv_heads * head_dim) + i] = kv[i];
    }
}
