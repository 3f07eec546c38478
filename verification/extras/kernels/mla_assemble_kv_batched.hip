extern "C" __global__ void mla_assemble_kv_batched(
    const float* __restrict__ kv, const float* __restrict__ k_rope,
    float* __restrict__ kc, float* __restrict__ vc,
    const int* __restrict__ pos_buf, const int* __restrict__ slots,
    int batch, int max_seq, int n_heads, int nope, int rope, int v_hd) {
    int hd = nope + rope;
    int total = batch * n_heads * hd;
    int i = blockIdx.x * blockDim.x + threadIdx.x;
    if (i < total) {
        int s = i / (n_heads * hd);
        int rem = i % (n_heads * hd);
        int h = rem / hd;
        int dd = rem % hd;
        int slot = slots[s];
        int pos = pos_buf[s];
        float val = (dd < nope)
            ? kv[(long long)s * n_heads * (nope + v_hd) + h * (nope + v_hd) + dd]
            : k_rope[(long long)s * rope + (dd - nope)];
        kc[((long long)slot * max_seq + pos) * n_heads * hd + h * hd + dd] = val;
    }
    int total_v = batch * n_heads * v_hd;
    if (i < total_v) {
        int s = i / (n_heads * v_hd);
        int rem = i % (n_heads * v_hd);
        int h = rem / v_hd;
        int dd = rem % v_hd;
        int slot = slots[s];
        int pos = pos_buf[s];
        vc[((long long)slot * max_seq + pos) * n_heads * v_hd + h * v_hd + dd] =
            kv[(long long)s * n_heads * (nope + v_hd) + h * (nope + v_hd) + nope + dd];
    }
}
