extern "C" __global__ void mla_extract_kv_lora(const float* __restrict__ kv_a,
                                               float* __restrict__ out,
                                               int batch, int kv_lora_rank, int rope) {
    int total = batch * kv_lora_rank;
    int i = blockIdx.x * blockDim.x + threadIdx.x;
    if (i < total) {
        int s = i / kv_lora_rank;
        int dd = i % kv_lora_rank;
        out[i] = kv_a[(long long)s * (kv_lora_rank + rope) + dd];
    }
}
