//! TurboQuant KV-cache compression settings and the memory they save.
//!
//! TurboQuant rotates each key/value vector with a Walsh-Hadamard transform,
//! quantizes each coordinate with a precomputed Lloyd-Max codebook, and
//! corrects the residual with a 1-bit QJL projection; it needs no calibration.
use vstd::prelude::*;

verus! {

/// TurboQuant configuration for KV-cache compression.
#[derive(Debug, Clone)]
pub struct TurboQuantConfig {
    /// Quantization bits: 3 (TQ3_0) or 4 (TQ4_0).
    pub bits: u8,
    /// Maximum context length achievable with this compression.
    pub max_context: u32,
    /// Head dimension of the model (typically 64, 128 or 256).
    pub head_dim: u32,
    /// Whether the QJL residual correction is applied.
    pub use_qjl_residual: bool,
    /// Number of random rotations ensembled.
    pub num_rotations: u32,
}

impl Default for TurboQuantConfig {
    /// Three bits, 64K context, head dimension 128, QJL residual, one rotation.
    fn default() -> (r: Self)
        ensures
            r.bits == 3,
            r.max_context == 65536,
            r.head_dim == 128,
            r.use_qjl_residual,
            r.num_rotations == 1,
    {
        TurboQuantConfig {
            bits: 3,
            max_context: 65536,
            head_dim: 128,
            use_qjl_residual: true,
            num_rotations: 1,
        }
    }
}

/// The number of K and V elements per token: two per layer, KV head and
/// head dimension.
pub open spec fn elements_per_token(num_layers: u32, num_kv_heads: u32, head_dim: u32) -> int {
    2 * num_layers * num_kv_heads * head_dim
}

/// The configuration that `TurboQuantConfig::new(bits)` makes.
pub open spec fn config_for_bits(bits: u8) -> TurboQuantConfig {
    TurboQuantConfig {
        bits: if bits == 4 { 4u8 } else { 3u8 },
        max_context: if bits == 4 { 49152u32 } else { 65536u32 },
        head_dim: 128,
        use_qjl_residual: true,
        num_rotations: 1,
    }
}

/// The configuration that `TurboQuantConfig::default()` makes.
pub open spec fn default_config() -> TurboQuantConfig {
    TurboQuantConfig { bits: 3, max_context: 65536, head_dim: 128, use_qjl_residual: true, num_rotations: 1 }
}

impl TurboQuantConfig {
    /// The configuration for `bits` bits: 4 stays 4, anything else becomes 3;
    /// 3 bits allow a 64K context, 4 bits 48K; the rest as by default.
    pub fn new(bits: u8) -> (r: Self)
        ensures
            r.bits == (if bits == 4 { 4u8 } else { 3u8 }),
            r.max_context == (if bits == 4 { 49152u32 } else { 65536u32 }),
            r.head_dim == 128,
            r.use_qjl_residual,
            r.num_rotations == 1,
    {
        let bits: u8 = if bits == 4 {
            4
        } else {
            3
        };
        let max_context: u32 = if bits == 3 {
            65536
        } else if bits == 4 {
            49152
        } else {
            32768
        };
        TurboQuantConfig { bits, max_context, ..Default::default() }
    }

    /// The memory compression ratio against an FP16 cache, as a fraction
    /// (numerator, denominator): 16/3 for 3 bits, 16/4 for 4 bits, 1 otherwise.
    pub fn compression_ratio_fraction(&self) -> (r: (u32, u32))
        ensures
            self.bits == 3 ==> r == (16u32, 3u32),
            self.bits == 4 ==> r == (16u32, 4u32),
            self.bits != 3 && self.bits != 4 ==> r == (1u32, 1u32),
    {
        if self.bits == 3 {
            (16, 3)
        } else if self.bits == 4 {
            (16, 4)
        } else {
            (1, 1)
        }
    }

    /// Estimated KV-cache bytes at `bits` bits per element for a context of
    /// `context_len` tokens: the bits of every element, in whole bytes.
    pub fn estimate_kv_memory(&self, context_len: u32, num_layers: u32, num_kv_heads: u32) -> (r: u64)
        requires
            2 * num_layers * num_kv_heads <= u64::MAX,
            elements_per_token(num_layers, num_kv_heads, self.head_dim) <= u64::MAX,
            context_len * elements_per_token(num_layers, num_kv_heads, self.head_dim) <= u64::MAX,
            context_len * elements_per_token(num_layers, num_kv_heads, self.head_dim) * self.bits
                <= u64::MAX,
        ensures
            r == context_len * elements_per_token(num_layers, num_kv_heads, self.head_dim)
                * self.bits / 8,
    {
        let bytes_per_element = self.bits as u64;
        let elements_per_token = 2 * num_layers as u64 * num_kv_heads as u64 * self.head_dim as u64;
        (context_len as u64 * elements_per_token * bytes_per_element) / 8
    }

    /// Estimated KV-cache bytes with FP16 elements (two bytes each).
    pub fn estimate_kv_memory_fp16(&self, context_len: u32, num_layers: u32, num_kv_heads: u32) -> (r: u64)
        requires
            2 * num_layers * num_kv_heads <= u64::MAX,
            elements_per_token(num_layers, num_kv_heads, self.head_dim) <= u64::MAX,
            context_len * elements_per_token(num_layers, num_kv_heads, self.head_dim) * 2
                <= u64::MAX,
        ensures
            r == context_len * elements_per_token(num_layers, num_kv_heads, self.head_dim) * 2,
    {
        let elements_per_token = 2 * num_layers as u64 * num_kv_heads as u64 * self.head_dim as u64;
        context_len as u64 * elements_per_token * 2
    }
}


/// With a head dimension that is a multiple of 4, the TurboQuant cache takes
/// exactly `bits / 16` of the FP16 cache: what `estimate_kv_memory` gives,
/// times 16, is what `estimate_kv_memory_fp16` gives, times the bits (3 bits
/// make it 16/3, about 5.3 times, smaller; 4 bits 4 times).
pub proof fn lemma_kv_memory_ratio(config: TurboQuantConfig, context_len: u32, num_layers: u32, num_kv_heads: u32)
    requires
        config.head_dim % 4 == 0,
    ensures
        (context_len * elements_per_token(num_layers, num_kv_heads, config.head_dim) * config.bits / 8) * 16
            == context_len * elements_per_token(num_layers, num_kv_heads, config.head_dim) * 2 * config.bits,
{
    let m = config.head_dim / 4;
    let k = context_len * num_layers * num_kv_heads * m;
    let b = config.bits;
    assert(context_len * elements_per_token(num_layers, num_kv_heads, config.head_dim) == 8 * k) by (nonlinear_arith)
        requires
            config.head_dim == 4 * m,
            k == context_len * num_layers * num_kv_heads * m,
    ;
    assert((8 * k * b) / 8 == k * b) by (nonlinear_arith);
    assert((8 * k) * b == 8 * k * b) by (nonlinear_arith);
    assert((k * b) * 16 == 8 * k * 2 * b) by (nonlinear_arith);
}

/// For any configuration, the TurboQuant estimate is the FP16 estimate times
/// the bits over 16, rounded down: what `estimate_kv_memory` gives equals
/// what `estimate_kv_memory_fp16` gives, times the bits, divided by 16.
pub proof fn lemma_kv_memory_of_fp16(config: TurboQuantConfig, context_len: u32, num_layers: u32, num_kv_heads: u32)
    ensures
        context_len * elements_per_token(num_layers, num_kv_heads, config.head_dim) * config.bits / 8 == (context_len
            * elements_per_token(num_layers, num_kv_heads, config.head_dim) * 2) * config.bits / 16,
{
    let n = context_len * elements_per_token(num_layers, num_kv_heads, config.head_dim);
    let b = config.bits as int;
    assert(n >= 0) by (nonlinear_arith)
        requires
            n == context_len * (2 * num_layers * num_kv_heads * config.head_dim),
    ;
    let x = n * b;
    assert(x >= 0) by (nonlinear_arith)
        requires
            n >= 0,
            b >= 0,
            x == n * b,
    ;
    assert((n * 2) * b == 2 * x) by (nonlinear_arith)
        requires
            x == n * b,
    ;
    let q = x / 8;
    let r = x % 8;
    assert(x == 8 * q + r && 0 <= r < 8) by (nonlinear_arith)
        requires
            x >= 0,
            q == x / 8,
            r == x % 8,
    ;
    assert((2 * x) / 16 == q) by (nonlinear_arith)
        requires
            x == 8 * q + r,
            0 <= r < 8,
    ;
}

/// Both estimates grow with the context length, the number of layers and the
/// number of KV heads: more of any of them never gives a smaller cache.
pub proof fn lemma_kv_memory_monotone(
    config: TurboQuantConfig,
    context_len: u32,
    num_layers: u32,
    num_kv_heads: u32,
    context_len2: u32,
    num_layers2: u32,
    num_kv_heads2: u32,
)
    requires
        context_len <= context_len2,
        num_layers <= num_layers2,
        num_kv_heads <= num_kv_heads2,
    ensures
        context_len * elements_per_token(num_layers, num_kv_heads, config.head_dim) * config.bits / 8
            <= context_len2 * elements_per_token(num_layers2, num_kv_heads2, config.head_dim) * config.bits / 8,
        context_len * elements_per_token(num_layers, num_kv_heads, config.head_dim) * 2 <= context_len2
            * elements_per_token(num_layers2, num_kv_heads2, config.head_dim) * 2,
{
    let d = config.head_dim as int;
    let e1 = elements_per_token(num_layers, num_kv_heads, config.head_dim);
    let e2 = elements_per_token(num_layers2, num_kv_heads2, config.head_dim);
    assert(0 <= e1 <= e2) by (nonlinear_arith)
        requires
            e1 == 2 * num_layers * num_kv_heads * d,
            e2 == 2 * num_layers2 * num_kv_heads2 * d,
            0 <= num_layers <= num_layers2,
            0 <= num_kv_heads <= num_kv_heads2,
            d >= 0,
    ;
    let n1 = context_len * e1;
    let n2 = context_len2 * e2;
    assert(0 <= n1 <= n2) by (nonlinear_arith)
        requires
            0 <= e1 <= e2,
            0 <= context_len <= context_len2,
            n1 == context_len * e1,
            n2 == context_len2 * e2,
    ;
    let b = config.bits as int;
    assert(n1 * b <= n2 * b) by (nonlinear_arith)
        requires
            0 <= n1 <= n2,
            b >= 0,
    ;
    assert((n1 * b) / 8 <= (n2 * b) / 8) by (nonlinear_arith)
        requires
            n1 * b <= n2 * b,
    ;
}

} // verus!
