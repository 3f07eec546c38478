extern "C" __global__ void embed_batched(const int* tok, const float* emb, float* x,
                                         int cols, int batch) {
    int s = blockIdx.y;
    int i = blockIdx.x * blockDim.x + threadIdx.x;
    if (i < cols) x[(long long)s * cols + i] = emb[(long long)tok[s] * cols + i];
}
