extern "C" __global__ void rope(float* q, float* k, const int* pos_buf,
                                int n_heads, int n_kv_heads, int head_dim, float theta) {
    int i = blockIdx.x * blockDim.x + threadIdx.x;
    int pos = *pos_buf;
    int half = head_dim / 2;
    int total_q = n_heads * head_dim;
    int total_k = n_kv_heads * head_dim;
    // GPT-NeoX rotary: pairs (d, d + half), matching HF rotate_half.
    if (i < total_q) {
        int h = i / head_dim;
        int d = i % head_dim;
        if (d < half) {
            float freq = 1.0f / powf(theta, (2.0f * (float)d) / (float)head_dim);
            float ang = (float)pos * freq;
            float c = cosf(ang), sn = sinf(ang);
            float* p = q + h * head_dim;
            float a = p[d], b = p[d + half];
            p[d] = a * c - b * sn;
            p[d + half] = a * sn + b * c;
        }
    }
    if (i < total_k) {
        int h = i / head_dim;
        int d = i % head_dim;
        if (d < half) {
            float freq = 1.0f / powf(theta, (2.0f * (float)d) / (float)head_dim);
            float ang = (float)pos * freq;
            float c = cosf(ang), sn = sinf(ang);
            float* p = k + h * head_dim;
            float a = p[d], b = p[d + half];
            p[d] = a * c - b * sn;
            p[d + half] = a * sn + b * c;
        }
    }
}
