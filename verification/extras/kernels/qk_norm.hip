extern "C" __global__ void qk_norm(float* q, float* k,
                                   const float* qw, const float* kw,
                                   int rows, int n_heads, int n_kv_heads,
                                   int head_dim, float eps) {
    int row = blockIdx.x;
    int head = blockIdx.y;
    // q: [rows, n_heads * head_dim]
    {
        float* xr = q + ((long long)row * n_heads + head) * head_dim;
        const float* wr = qw + (long long)head * head_dim;
        __shared__ float redq[256];
        float ss = 0.0f;
        for (int i = threadIdx.x; i < head_dim; i += blockDim.x) ss += xr[i] * xr[i];
        redq[threadIdx.x] = ss;
        __syncthreads();
        for (int s = blockDim.x / 2; s > 0; s >>= 1) {
            if (threadIdx.x < s) redq[threadIdx.x] += redq[threadIdx.x + s];
            __syncthreads();
        }
        float inv = rsqrtf(redq[0] / (float)head_dim + eps);
        for (int i = threadIdx.x; i < head_dim; i += blockDim.x) {
            xr[i] = xr[i] * inv * wr[i];
        }
    }
    // k: [rows, n_kv_heads * head_dim] (skip when head >= n_kv_heads).
    if (head < n_kv_heads) {
        float* xr = k + ((long long)row * n_kv_heads + head) * head_dim;
        const float* wr = kw + (long long)head * head_dim;
        __shared__ float redk[256];
        float ss = 0.0f;
        for (int i = threadIdx.x; i < head_dim; i += blockDim.x) ss += xr[i] * xr[i];
        redk[threadIdx.x] = ss;
        __syncthreads();
        for (int s = blockDim.x / 2; s > 0; s >>= 1) {
            if (threadIdx.x < s) redk[threadIdx.x] += redk[threadIdx.x + s];
            __syncthreads();
        }
        float inv = rsqrtf(redk[0] / (float)head_dim + eps);
        for (int i = threadIdx.x; i < head_dim; i += blockDim.x) {
            xr[i] = xr[i] * inv * wr[i];
        }
    }
}
