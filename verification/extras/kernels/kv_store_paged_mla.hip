extern "C" __global__ void kv_store_paged_mla(
    const float* __restrict__ kv,
    const float* __restrict__ k_rope,
    float* __restrict__ k_pool, float* __restrict__ v_pool,
    const int* __restrict__ pos_buf,
    const int* __restrict__ table_offsets,
    const int* __restrict__ block_tables,
    int batch, int heads, int nope, int rope, int v_hd,
    int tokens_per_page) {
    int hd = nope + rope;
    // K side: expand (nope from kv + rope from k_rope) while storing.
    int idx = blockIdx.x * blockDim.x + threadIdx.x;
    int total_k = batch * heads * hd;
    if (idx < total_k) {
        int s = idx / (heads * hd);
        int rem = idx % (heads * hd);
        int h = rem / hd;
        int dd = rem % hd;
        float val = (dd < nope)
            ? kv[(long long)s * heads * (nope + v_hd) + h * (nope + v_hd) + dd]
            : k_rope[(long long)s * rope + (dd - nope)];
        int p = pos_buf[s];
        int logical = p / tokens_per_page;
        int off = p % tokens_per_page;
        int page = block_tables[table_offsets[s] + logical];
        k_pool[((long long)page * tokens_per_page + off) * heads * hd + h * hd + dd] = val;
    }
    // V side: contiguous v tail inside kv.
    int total_v = batch * heads * v_hd;
    if (idx < total_v) {
        int s = idx / (heads * v_hd);
        int h = (idx % (heads * v_hd)) / v_hd;
        int dd = idx % v_hd;
        int p = pos_buf[s];
        int logical = p / tokens_per_page;
        int off = p % tokens_per_page;
        int page = block_tables[table_offsets[s] + logical];
        v_pool[((long long)page * tokens_per_page + off) * heads * v_hd + h * v_hd + dd] =
            kv[(long long)s * heads * (nope + v_hd) + h * (nope + v_hd) + nope + dd];
    }
}
