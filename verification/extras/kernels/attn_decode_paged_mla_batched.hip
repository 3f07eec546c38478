extern "C" __global__ void attn_decode_paged_mla_batched(
    const float* __restrict__ q,
    const float* __restrict__ k_pool,
    const float* __restrict__ v_pool,
    const int* __restrict__ block_tables,
    float* __restrict__ out,
    const int* __restrict__ pos_buf,
    const int* __restrict__ table_offsets,
    int batch, int n_heads, int nope, int rope, int v_hd,
    float scale, int tokens_per_page, int max_pages) {
    extern __shared__ float smem[];
    float* scores = smem;
    float* red = smem + max_pages * tokens_per_page;

    int hd = nope + rope;
    int s = blockIdx.x / n_heads;
    int h = blockIdx.x % n_heads;
    int pos = pos_buf[s];
    const int* table = block_tables + table_offsets[s];
    const float* qh = q + ((long long)s * n_heads + h) * hd;

    for (int p = threadIdx.x; p <= pos; p += blockDim.x) {
        int logical = p / tokens_per_page;
        int off = p % tokens_per_page;
        int page = table[logical];
        const float* kp = k_pool + ((long long)page * tokens_per_page + off) * n_heads * hd + h * hd;
        float sc = 0.0f;
        for (int dd = 0; dd < hd; dd++) sc += qh[dd] * kp[dd];
        scores[p] = sc * scale;
    }
    __syncthreads();

    float maxv = -1e30f;
    for (int p = threadIdx.x; p <= pos; p += blockDim.x) maxv = fmaxf(maxv, scores[p]);
    red[threadIdx.x] = maxv;
    __syncthreads();
    for (int st = blockDim.x / 2; st > 0; st >>= 1) {
        if (threadIdx.x < st) red[threadIdx.x] = fmaxf(red[threadIdx.x], red[threadIdx.x + st]);
        __syncthreads();
    }
    float m = red[0];

    float sumv = 0.0f;
    for (int p = threadIdx.x; p <= pos; p += blockDim.x) sumv += __expf(scores[p] - m);
    red[threadIdx.x] = sumv;
    __syncthreads();
    for (int st = blockDim.x / 2; st > 0; st >>= 1) {
        if (threadIdx.x < st) red[threadIdx.x] += red[threadIdx.x + st];
        __syncthreads();
    }
    float ssum = red[0];

    for (int dd = threadIdx.x; dd < v_hd; dd += blockDim.x) {
        float acc = 0.0f;
        for (int p = 0; p <= pos; p++) {
            int logical = p / tokens_per_page;
            int off = p % tokens_per_page;
            int page = table[logical];
            const float* vp = v_pool + ((long long)page * tokens_per_page + off) * n_heads * v_hd + h * v_hd + dd;
            acc += __expf(scores[p] - m) * (*vp);
        }
        out[((long long)s * n_heads + h) * v_hd + dd] = acc / ssum;
    }
}
