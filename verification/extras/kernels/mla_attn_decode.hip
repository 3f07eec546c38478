extern "C" __global__ void mla_attn_decode(
    const float* __restrict__ q,
    const float* __restrict__ kc,
    const float* __restrict__ vc,
    float* __restrict__ out,
    const int* __restrict__ pos_buf,
    int n_heads, int k_hd, int v_hd, float scale, int max_seq) {
    extern __shared__ float smem[];
    float* scores = smem;
    float* red = smem + max_seq;   // [blockDim.x]
    int h = blockIdx.x;
    const float* qh = q + h * k_hd;
    int pos = *pos_buf;
    for (int p = threadIdx.x; p <= pos; p += blockDim.x) {
        const float* kp = kc + (long long)p * n_heads * k_hd + h * k_hd;
        float s = 0.0f;
        for (int d = 0; d < k_hd; d++) s += qh[d] * kp[d];
        scores[p] = s * scale;
    }
    __syncthreads();
    float maxv = -1e30f;
    for (int p = threadIdx.x; p <= pos; p += blockDim.x) maxv = fmaxf(maxv, scores[p]);
    red[threadIdx.x] = maxv;
    __syncthreads();
    for (int s = blockDim.x / 2; s > 0; s >>= 1) {
        if (threadIdx.x < s) red[threadIdx.x] = fmaxf(red[threadIdx.x], red[threadIdx.x + s]);
        __syncthreads();
    }
    float m = red[0];
    float sumv = 0.0f;
    for (int p = threadIdx.x; p <= pos; p += blockDim.x) sumv += __expf(scores[p] - m);
    red[threadIdx.x] = sumv;
    __syncthreads();
    for (int s = blockDim.x / 2; s > 0; s >>= 1) {
        if (threadIdx.x < s) red[threadIdx.x] += red[threadIdx.x + s];
        __syncthreads();
    }
    float ssum = red[0];
    for (int d = threadIdx.x; d < v_hd; d += blockDim.x) {
        float acc = 0.0f;
        for (int p = 0; p <= pos; p++) {
            float vp = vc[(long long)p * n_heads * v_hd + h * v_hd + d];
            acc += __expf(scores[p] - m) * vp;
        }
        out[h * v_hd + d] = acc / ssum;
    }
}
