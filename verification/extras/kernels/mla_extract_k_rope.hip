extern "C" __global__ void mla_extract_k_rope(const float* __restrict__ kv_a,
                                              float* __restrict__ k_rope,
                                              int batch, int kv_lora, int rope) {
    int total = batch * rope;
    int i = blockIdx.x * blockDim.x + threadIdx.x;
    if (i < total) {
        int s = i / rope;
        int dd = i % rope;
        k_rope[i] = kv_a[(long long)s * (kv_lora + rope) + kv_lora + dd];
    }
}
