__device__ inline float f16_bits_to_f32(unsigned short u) {
    union { _Float16 h; unsigned short u; } c;
    c.u = u;
    return (float)c.h;
}
extern "C" __global__ void moe_grouped_gate_up_f16(
    const float* __restrict__ x,
    const int* __restrict__ ids,
    const unsigned short* __restrict__ wg,
    const unsigned short* __restrict__ wu,
    float* __restrict__ gate_all,
    float* __restrict__ up_all,
    int einter, int d, int topk) {
    __shared__ float s_ag[128];
    __shared__ float s_au[128];
    int r = blockIdx.x;
    int o = blockIdx.y;
    int t = r / topk;
    int e = ids[r];
    const float* xr = x + (long long)t * d;
    long long wbase = (long long)e * einter * d + (long long)o * d;
    float ag = 0.f, au = 0.f;
    for (int k = threadIdx.x; k < d; k += blockDim.x) {
        float xv = xr[k];
        ag += xv * f16_bits_to_f32(wg[wbase + k]);
        au += xv * f16_bits_to_f32(wu[wbase + k]);
    }
    s_ag[threadIdx.x] = ag;
    s_au[threadIdx.x] = au;
    __syncthreads();
    for (int off = blockDim.x / 2; off > 0; off >>= 1) {
        if (threadIdx.x < off) {
            s_ag[threadIdx.x] += s_ag[threadIdx.x + off];
            s_au[threadIdx.x] += s_au[threadIdx.x + off];
        }
        __syncthreads();
    }
    if (threadIdx.x == 0) {
        gate_all[(long long)r * einter + o] = s_ag[0];
        up_all[(long long)r * einter + o] = s_au[0];
    }
}
