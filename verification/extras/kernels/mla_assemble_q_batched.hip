extern "C" __global__ void mla_assemble_q_batched(
    const float* __restrict__ q_nope, const float* __restrict__ q_rope,
    float* __restrict__ q, int batch, int n_heads, int nope, int rope) {
    int hd = nope + rope;
    int total = batch * n_heads * hd;
    int i = blockIdx.x * blockDim.x + threadIdx.x;
    if (i < total) {
        int s = i / (n_heads * hd);
        int rem = i % (n_heads * hd);
        int h = rem / hd;
        int dd = rem % hd;
        q[i] = (dd < nope)
            ? q_nope[(long long)s * n_heads * nope + h * nope + dd]
            : q_rope[(long long)s * n_heads * rope + h * rope + (dd - nope)];
    }
}
