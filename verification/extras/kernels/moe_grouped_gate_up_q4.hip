#define Q4_GROUP 32
__device__ inline float q4_val(const unsigned char* q, const float* s, long long idx) {
    int g = (int)(idx / Q4_GROUP);
    unsigned char byte = q[idx / 2];
    int nib = (idx & 1) ? (byte >> 4) : (byte & 0x0F);
    int v = nib < 8 ? nib : nib - 16;
    return s[g] * (float)v;
}
extern "C" __global__ void moe_grouped_gate_up_q4(
    const float* __restrict__ x,
    const int* __restrict__ ids,
    const unsigned char* __restrict__ wg_q,
    const float* __restrict__ wg_s,
    const unsigned char* __restrict__ wu_q,
    const float* __restrict__ wu_s,
    float* __restrict__ gate_all,
    float* __restrict__ up_all,
    int einter, int d, int topk) {
    // Block per (routed row, output): 128 lanes stride the d reduction, then
    // a shared-memory tree reduce. Small-batch decode (b=1 -> rows*192
    // blocks here) needs ~800K threads to hide memory latency.
    __shared__ float s_ag[128];
    __shared__ float s_au[128];
    int r = blockIdx.x;
    int o = blockIdx.y;
    int t = r / topk;
    int e = ids[r];
    long long wbase = ((long long)e * einter + o) * d;
    const float* xr = x + (long long)t * d;
    float ag = 0.f, au = 0.f;
    for (int k = threadIdx.x; k < d; k += blockDim.x) {
        float xv = xr[k];
        ag += xv * q4_val(wg_q, wg_s, wbase + k);
        au += xv * q4_val(wu_q, wu_s, wbase + k);
    }
    s_ag[threadIdx.x] = ag;
    s_au[threadIdx.x] = au;
    __syncthreads();
    for (int off = blockDim.x / 2; off > 0; off >>= 1) {
        if (threadIdx.x < off) {
            s_ag[threadIdx.x] += s_ag[threadIdx.x + off];
            s_au[threadIdx.x] += s_au[threadIdx.x + off];
        }
        __syncthreads();
    }
    if (threadIdx.x == 0) {
        gate_all[(long long)r * einter + o] = s_ag[0];
        up_all[(long long)r * einter + o] = s_au[0];
    }
}
