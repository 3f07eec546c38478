__device__ float f16_to_f32(unsigned short h) {
    unsigned int sign = ((unsigned int)h & 0x8000u) << 16;
    unsigned int e = (h >> 10) & 0x1fu;
    unsigned int m = h & 0x3ffu;
    unsigned int b;
    if (e == 0u) {
        if (m == 0u) b = sign;
        else {
            unsigned int m2 = m;
            unsigned int e2 = 127u + 1u - 15u;
            while ((m2 & 0x400u) == 0u) { m2 <<= 1; e2--; }
            b = sign | (e2 << 23) | ((m2 & 0x3ffu) << 13);
        }
    } else if (e == 0x1fu) {
        b = sign | 0x7f800000u | (m << 13);
    } else {
        b = sign | ((e + 127u - 15u) << 23) | (m << 13);
    }
    return __uint_as_float(b);
}

extern "C" __global__ void attn_prefill_f16(
    const float* __restrict__ q,          // [total_rows, n_heads, head_dim]
    const unsigned short* __restrict__ kc, // [slot][max_seq][n_kv_heads][head_dim]
    const unsigned short* __restrict__ vc,
    float* __restrict__ out,              // [total_rows, n_heads, head_dim]
    int qoff, int C, int base, int n_heads, int n_kv_heads, int head_dim,
    float scale, int max_seq, int slot)
{
    const int h = blockIdx.x;
    const int kv = h / (n_heads / n_kv_heads);
    const int tid = threadIdx.x;
    const int r = tid / 4;        // 0..63 query row within the run
    const int g = tid % 4;        // dim group (head_dim/4 each)
    const int D = head_dim / 4;   // <= 16 for head_dim <= 64
    const int P = base + C;       // key positions 0..P-1

    __shared__ float s_max[64];
    __shared__ float s_sum[64];
    if (tid < 64) {
        s_max[tid] = -1e30f;
        s_sum[tid] = 0.0f;
    }
    __syncthreads();

    const float* qh = q + ((long long)(qoff + r) * n_heads + h) * head_dim;
    float qreg[16];
    #pragma unroll
    for (int d = 0; d < D; d++) qreg[d] = qh[g * D + d];

    const unsigned short* kbase = kc + ((long long)slot * max_seq) * n_kv_heads * head_dim + kv * head_dim;
    const unsigned short* vbase = vc + ((long long)slot * max_seq) * n_kv_heads * head_dim + kv * head_dim;

    // Pass A: per-row max score over causally-attended keys.
    for (int p = 0; p < P; p++) {
        float s = 0.0f;
        #pragma unroll
        for (int d = 0; d < D; d++) {
            s += qreg[d] * f16_to_f32(kbase[(long long)p * n_kv_heads * head_dim + g * D + d]);
        }
        s += __shfl_down(s, 1);
        s += __shfl_down(s, 2);
        s = __shfl(s, (tid & ~3) & 31);
        s *= scale;
        float sm = (r >= p - base) ? s : -1e30f;
        if (g == 0) {
            s_max[r] = fmaxf(s_max[r], sm);
        }
    }
    __syncthreads();

    // Pass B: exp-weighted V accumulation (K read again, V read once).
    float sumv = 0.0f;
    float acc[16];
    #pragma unroll
    for (int d = 0; d < D; d++) acc[d] = 0.0f;
    for (int p = 0; p < P; p++) {
        float s = 0.0f;
        #pragma unroll
        for (int d = 0; d < D; d++) {
            s += qreg[d] * f16_to_f32(kbase[(long long)p * n_kv_heads * head_dim + g * D + d]);
        }
        s += __shfl_down(s, 1);
        s += __shfl_down(s, 2);
        s = __shfl(s, (tid & ~3) & 31);
        s *= scale;
        float e = (r >= p - base) ? __expf(s - s_max[r]) : 0.0f;
        sumv += e;
        const unsigned short* vp = vbase + (long long)p * n_kv_heads * head_dim + g * D;
        #pragma unroll
        for (int d = 0; d < D; d++) acc[d] += e * f16_to_f32(vp[d]);
    }
    if (g == 0) {
        s_sum[r] = sumv;
    }
    __syncthreads();

    float* oh = out + ((long long)(qoff + r) * n_heads + h) * head_dim;
    if (r < C) {
        float inv = 1.0f / s_sum[r];
        #pragma unroll
        for (int d = 0; d < D; d++) oh[g * D + d] = acc[d] * inv;
    }
}
