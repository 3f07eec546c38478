extern "C" __global__ void rope_batched(float* q, float* k, const int* pos_buf,
                                        int batch, int n_heads, int n_kv_heads,
                                        int head_dim, float theta) {
    int idx = blockIdx.x * blockDim.x + threadIdx.x;
    int half = head_dim / 2;
    int total_q = batch * n_heads * head_dim;
    int total_k = batch * n_kv_heads * head_dim;
    if (idx < total_q) {
        int s = idx / (n_heads * head_dim);
        int rem = idx % (n_heads * head_dim);
        int h = rem / head_dim;
        int d = rem % head_dim;
        if (d < half) {
            int pos = pos_buf[s];
            float freq = 1.0f / powf(theta, (2.0f * (float)d) / (float)head_dim);
            float ang = (float)pos * freq;
            float c = cosf(ang), sn = sinf(ang);
            float* p = q + (long long)s * n_heads * head_dim + h * head_dim;
            float a = p[d], b = p[d + half];
            p[d] = a * c - b * sn;
            p[d + half] = a * sn + b * c;
        }
    }
    if (idx < total_k) {
        int s = idx / (n_kv_heads * head_dim);
        int rem = idx % (n_kv_heads * head_dim);
        int h = rem / head_dim;
        int d = rem % head_dim;
        if (d < half) {
            int pos = pos_buf[s];
            float freq = 1.0f / powf(theta, (2.0f * (float)d) / (float)head_dim);
            float ang = (float)pos * freq;
            float c = cosf(ang), sn = sinf(ang);
            float* p = k + (long long)s * n_kv_heads * head_dim + h * head_dim;
            float a = p[d], b = p[d + half];
            p[d] = a * c - b * sn;
            p[d + half] = a * sn + b * c;
        }
    }
}
