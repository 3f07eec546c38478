extern "C" __global__ void mla_attn_decode_batched(
    const float* __restrict__ q, const float* __restrict__ kc,
    const float* __restrict__ vc, float* __restrict__ out,
    const int* __restrict__ pos_buf, const int* __restrict__ slots,
    int batch, int n_heads, int k_hd, int v_hd, float scale, int max_seq) {
    extern __shared__ float smem[];
    float* scores = smem;
    float* red = smem + max_seq;
    int s = blockIdx.x / n_heads;
    int h = blockIdx.x % n_heads;
    int slot = slots[s];
    int pos = pos_buf[s];
    const float* qh = q + ((long long)s * n_heads + h) * k_hd;
    for (int p = threadIdx.x; p <= pos; p += blockDim.x) {
        const float* kp = kc + ((long long)slot * max_seq + p) * n_heads * k_hd + h * k_hd;
        float sc = 0.0f;
        for (int dd = 0; dd < k_hd; dd++) sc += qh[dd] * kp[dd];
        scores[p] = sc * scale;
    }
    __syncthreads();
    float maxv = -1e30f;
    for (int p = threadIdx.x; p <= pos; p += blockDim.x) maxv = fmaxf(maxv, scores[p]);
    red[threadIdx.x] = maxv;
    __syncthreads();
    for (int st = blockDim.x / 2; st > 0; st >>= 1) {
        if (threadIdx.x < st) red[threadIdx.x] = fmaxf(red[threadIdx.x], red[threadIdx.x + st]);
        __syncthreads();
    }
    float m = red[0];
    float sumv = 0.0f;
    for (int p = threadIdx.x; p <= pos; p += blockDim.x) sumv += __expf(scores[p] - m);
    red[threadIdx.x] = sumv;
    __syncthreads();
    for (int st = blockDim.x / 2; st > 0; st >>= 1) {
        if (threadIdx.x < st) red[threadIdx.x] += red[threadIdx.x + st];
        __syncthreads();
    }
    float ssum = red[0];
    for (int dd = threadIdx.x; dd < v_hd; dd += blockDim.x) {
        float acc = 0.0f;
        for (int p = 0; p <= pos; p++) {
            float vp = vc[((long long)slot * max_seq + p) * n_heads * v_hd + h * v_hd + dd];
            acc += __expf(scores[p] - m) * vp;
        }
        out[((long long)s * n_heads + h) * v_hd + dd] = acc / ssum;
    }
}
