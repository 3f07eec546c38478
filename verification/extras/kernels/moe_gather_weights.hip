extern "C" __global__ void moe_gather_weights(
    const float* __restrict__ wg, const float* __restrict__ wu, const float* __restrict__ wd,
    const int* __restrict__ ids,
    float* __restrict__ wg_pack, float* __restrict__ wu_pack, float* __restrict__ wd_pack,
    int ne, int inter, int d, int topk) {
    int i = blockIdx.x * blockDim.x + threadIdx.x;
    long long gi = (long long)inter * d;
    long long di = (long long)d * inter;
    if (i < topk * gi) {
        int slot = (int)(i / gi);
        long long rem = i % gi;
        long long src = (long long)ids[slot] * gi + rem;
        wg_pack[i] = wg[src];
        wu_pack[i] = wu[src];
    }
    if (i < topk * di) {
        int slot = (int)(i / di);
        long long rem = i % di;
        long long src = (long long)ids[slot] * di + rem;
        wd_pack[i] = wd[src];
    }
}
