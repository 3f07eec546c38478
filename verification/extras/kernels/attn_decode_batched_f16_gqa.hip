__device__ inline float f16_bits_to_f32(unsigned short u) {
    union { _Float16 h; unsigned short u; } c;
    c.u = u;
    return (float)c.h;
}

extern "C" __global__ void attn_decode_batched_f16_gqa(
    const float* __restrict__ q,
    const unsigned short* __restrict__ kc,
    const unsigned short* __restrict__ vc,
    float* __restrict__ out,
    const int* __restrict__ pos_buf,
    const int* __restrict__ slots,
    const int* __restrict__ run_mask,
    int batch, int n_heads, int n_kv_heads, int head_dim, float scale, int max_seq) {
    const int s = blockIdx.x / n_kv_heads;
    const int kv = blockIdx.x % n_kv_heads;
    const int slot = slots[s];
    const int pos = pos_buf[s];
    if (run_mask[s] != 0) {
        return;
    }
    const int T = blockDim.x;
    const int tid = threadIdx.x;
    const int groups = n_heads / n_kv_heads;
    const int per = T / head_dim;   // lanes per output dim (key split)
    const int tile = T;             // positions per phase-A round
    const int np = pos + 1;

    extern __shared__ float sm[];
    float* scores = sm;                          // [groups][tile]
    float* sm_m = sm + (long long)groups * tile; // [T][groups] lane partials
    float* sm_l = sm_m + (long long)T * groups;
    float* sm_a = sm_l + (long long)T * groups;

    // Phase-B online-softmax state per (dim, lane) per group.
    float m[16], l[16], acc[16];
    for (int g = 0; g < groups; g++) {
        m[g] = -1e30f;
        l[g] = 0.0f;
        acc[g] = 0.0f;
    }

    for (int tile0 = 0; tile0 < np; tile0 += tile) {
        const int n_t = (np - tile0 < tile) ? (np - tile0) : tile;
        // Phase A: full head_dim dot per group, K[p] read once per position.
        if (tid < n_t) {
            const int p = tile0 + tid;
            const unsigned short* krow =
                kc + (((long long)slot * max_seq + p) * n_kv_heads + kv) * head_dim;
            float dot[16];
            for (int g = 0; g < groups; g++) dot[g] = 0.0f;
            // Vectorized K row reads (8 fp16 per uint4) cut L1 load count.
            for (int dd8 = 0; dd8 < head_dim; dd8 += 8) {
                const uint4 v = *((const uint4*)(krow + dd8));
                float f0 = f16_bits_to_f32(v.x & 0xffffu);
                float f1 = f16_bits_to_f32(v.x >> 16);
                float f2 = f16_bits_to_f32(v.y & 0xffffu);
                float f3 = f16_bits_to_f32(v.y >> 16);
                float f4 = f16_bits_to_f32(v.z & 0xffffu);
                float f5 = f16_bits_to_f32(v.z >> 16);
                float f6 = f16_bits_to_f32(v.w & 0xffffu);
                float f7 = f16_bits_to_f32(v.w >> 16);
                for (int g = 0; g < groups; g++) {
                    const float* qg = q + ((long long)s * n_heads + kv * groups + g) * head_dim + dd8;
                    dot[g] += qg[0] * f0 + qg[1] * f1 + qg[2] * f2 + qg[3] * f3
                            + qg[4] * f4 + qg[5] * f5 + qg[6] * f6 + qg[7] * f7;
                }
            }
            for (int g = 0; g < groups; g++) {
                scores[(long long)g * tile + tid] = dot[g] * scale;
            }
        }
        __syncthreads();
        // Phase B: V reused across the group; online softmax per (g, dim).
        const int dd = tid % head_dim;
        const int c = tid / head_dim;
        const unsigned short* vrow =
            vc + (((long long)slot * max_seq + tile0) * n_kv_heads + kv) * head_dim + dd;
        for (int pp = c; pp < n_t; pp += per) {
            const float vvv = f16_bits_to_f32(vrow[(long long)pp * n_kv_heads * head_dim]);
            for (int g = 0; g < groups; g++) {
                const float sc = scores[(long long)g * tile + pp];
                const float mnew = fmaxf(m[g], sc);
                const float alpha = __expf(m[g] - mnew);
                const float beta = __expf(sc - mnew);
                l[g] = l[g] * alpha + beta;
                acc[g] = acc[g] * alpha + beta * vvv;
                m[g] = mnew;
            }
        }
        __syncthreads(); // protect shared scores before the next tile overwrites
    }

    // Merge the per-lane partials and write the output.
    const int dd = tid % head_dim;
    const int c = tid / head_dim;
    for (int g = 0; g < groups; g++) {
        const long long idx = ((long long)c * groups + g) * head_dim + dd;
        sm_m[idx] = m[g];
        sm_l[idx] = l[g];
        sm_a[idx] = acc[g];
    }
    __syncthreads();
    if (c == 0) {
        for (int g = 0; g < groups; g++) {
            float m2 = -1e30f, l2 = 0.0f, a2 = 0.0f;
            for (int cc = 0; cc < per; cc++) {
                const long long idx = ((long long)cc * groups + g) * head_dim + dd;
                const float mi = sm_m[idx];
                const float li = sm_l[idx];
                const float ai = sm_a[idx];
                const float mnew = fmaxf(m2, mi);
                const float alpha = __expf(m2 - mnew);
                const float beta = __expf(mi - mnew);
                l2 = l2 * alpha + li * beta;
                a2 = a2 * alpha + ai * beta;
                m2 = mnew;
            }
            const int h = kv * groups + g;
            out[((long long)s * n_heads + h) * head_dim + dd] = a2 / l2;
        }
    }
}
