extern "C" __global__ void mla_assemble_kv(const float* __restrict__ kv,
                                           const float* __restrict__ k_rope,
                                           float* __restrict__ kc,
                                           float* __restrict__ vc,
                                           const int* __restrict__ pos_buf,
                                           int n_heads, int nope, int rope, int v_hd) {
    int pos = *pos_buf;
    int hd = nope + rope;
    int total = n_heads * hd;
    int i = blockIdx.x * blockDim.x + threadIdx.x;
    if (i < total) {
        int h = i / hd;
        int dd = i % hd;
        float val = (dd < nope) ? kv[h * (nope + v_hd) + dd] : k_rope[dd - nope];
        kc[(long long)pos * n_heads * hd + i] = val;
    }
    int total_v = n_heads * v_hd;
    if (i < total_v) {
        int h = i / v_hd;
        int dd = i % v_hd;
        vc[(long long)pos * n_heads * v_hd + i] = kv[h * (nope + v_hd) + nope + dd];
    }
}
