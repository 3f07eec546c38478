extern "C" __global__ void mla_assemble_q(const float* __restrict__ q_nope,
                                          const float* __restrict__ q_rope,
                                          float* __restrict__ q,
                                          int n_heads, int nope, int rope) {
    int hd = nope + rope;
    int total = n_heads * hd;
    int i = blockIdx.x * blockDim.x + threadIdx.x;
    if (i < total) {
        int h = i / hd;
        int dd = i % hd;
        q[i] = (dd < nope) ? q_nope[h * nope + dd] : q_rope[h * rope + (dd - nope)];
    }
}
