#define Q4_GROUP 32
__device__ inline float q4_val(const unsigned char* q, const float* s, long long idx) {
    int g = (int)(idx / Q4_GROUP);
    unsigned char byte = q[idx / 2];
    int nib = (idx & 1) ? (byte >> 4) : (byte & 0x0F);
    int v = nib < 8 ? nib : nib - 16;
    return s[g] * (float)v;
}
extern "C" __global__ void moe_grouped_down_q4(
    const float* __restrict__ eh,
    const int* __restrict__ ids,
    const unsigned char* __restrict__ wd_q,
    const float* __restrict__ wd_s,
    float* __restrict__ down_all,
    int rows, int d, int einter) {
    // Block per (routed row, output dim): 128 lanes stride the einter
    // reduction (see the gate_up_q4 note on small-batch parallelism).
    __shared__ float s_acc[128];
    int r = blockIdx.x;
    int o = blockIdx.y;
    int e = ids[r];
    long long wbase = ((long long)e * d + o) * einter;
    const float* eh_r = eh + (long long)r * einter;
    float acc = 0.f;
    for (int k = threadIdx.x; k < einter; k += blockDim.x) {
        acc += eh_r[k] * q4_val(wd_q, wd_s, wbase + k);
    }
    s_acc[threadIdx.x] = acc;
    __syncthreads();
    for (int off = blockDim.x / 2; off > 0; off >>= 1) {
        if (threadIdx.x < off) s_acc[threadIdx.x] += s_acc[threadIdx.x + off];
        __syncthreads();
    }
    if (threadIdx.x == 0) down_all[(long long)r * d + o] = s_acc[0];
}
