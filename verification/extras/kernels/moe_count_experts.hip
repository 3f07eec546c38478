extern "C" __global__ void moe_count_experts(
    const int* __restrict__ ids,
    int* __restrict__ counts,
    int batch, int topk) {
    int i = blockIdx.x * blockDim.x + threadIdx.x;
    int total = batch * topk;
    if (i < total) {
        int e = ids[i];
        atomicAdd(&counts[e], 1);
    }
}
