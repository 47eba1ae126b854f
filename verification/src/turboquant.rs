//! TurboQuant quantization arithmetic: bits per element, compression ratio,
//! packed sizes and KV-cache memory. Vectors of `f32` are given as their
//! IEEE-754 bit patterns.
use vstd::prelude::*;

verus! {

/// Quantization type.
#[derive(Debug, Clone, Copy, PartialEq, Eq)]
pub enum TqType {
    Tq3_0,
    Tq4_0,
}

/// The bits per element of a quantization type.
pub open spec fn tq_bits(t: TqType) -> nat {
    match t {
        TqType::Tq3_0 => 3,
        TqType::Tq4_0 => 4,
    }
}

impl TqType {
    /// The value the C API gives this type.
    pub fn code(&self) -> (r: u32)
        ensures
            r == (match *self {
                TqType::Tq3_0 => 0u32,
                TqType::Tq4_0 => 1u32,
            }),
    {
        match self {
            TqType::Tq3_0 => 0,
            TqType::Tq4_0 => 1,
        }
    }
}

/// TurboQuant quantization engine for vectors of dimension `dim`.
pub struct TurboQuant {
    tq_type: TqType,
    dim: usize,
}

impl TurboQuant {
    pub closed spec fn spec_type(&self) -> TqType {
        self.tq_type
    }

    pub closed spec fn spec_dim(&self) -> nat {
        self.dim as nat
    }

    /// An engine for `tq_type` on vectors of dimension `dim`.
    pub fn new(dim: usize, tq_type: TqType) -> (r: Self)
        ensures
            r.spec_type() == tq_type,
            r.spec_dim() == dim,
    {
        TurboQuant { tq_type, dim }
    }

    /// Bits per element: 3 for TQ3, 4 for TQ4.
    pub fn bits_per_element(&self) -> (r: usize)
        ensures
            r == tq_bits(self.spec_type()),
    {
        match self.tq_type {
            TqType::Tq3_0 => 3,
            TqType::Tq4_0 => 4,
        }
    }

    /// The compression ratio against FP16, as the fraction 16 / bits.
    pub fn compression_ratio_fraction(&self) -> (r: (usize, usize))
        ensures
            r == (16usize, tq_bits(self.spec_type()) as usize),
    {
        (16, self.bits_per_element())
    }

    /// Quantizes a vector of `dim` elements into its packed bytes (all zero
    /// until the C kernels are linked): `dim * bits / 8` of them.
    pub fn quantize(&self, input: &[u32]) -> (r: Vec<u8>)
        requires
            input@.len() == self.spec_dim(),
            self.spec_dim() * 4 <= usize::MAX,
        ensures
            r@.len() == self.spec_dim() * tq_bits(self.spec_type()) / 8,
            forall|i: int| 0 <= i < r@.len() ==> r@[i] == 0,
    {
        let bits = self.bits_per_element();
        let n = (input.len() * bits) / 8;
        let mut r: Vec<u8> = Vec::new();
        let mut i: usize = 0;
        while i < n
            invariant
                i <= n,
                r@.len() == i,
                forall|k: int| 0 <= k < i ==> r@[k] == 0,
            decreases n - i,
        {
            r.push(0u8);
            i = i + 1;
        }
        r
    }

    /// Dequantizes packed bytes into `dim` elements (all zero until the C
    /// kernels are linked).
    pub fn dequantize(&self, _data: &[u8]) -> (r: Vec<u32>)
        ensures
            r@.len() == self.spec_dim(),
            forall|i: int| 0 <= i < r@.len() ==> r@[i] == 0,
    {
        let mut r: Vec<u32> = Vec::new();
        let mut i: usize = 0;
        while i < self.dim
            invariant
                i <= self.dim,
                r@.len() == i,
                forall|k: int| 0 <= k < i ==> r@[k] == 0,
            decreases self.dim - i,
        {
            r.push(0u32);
            i = i + 1;
        }
        r
    }

    /// KV-cache bytes for `num_tokens` tokens: a K and a V element per token,
    /// layer, KV head and dimension, at the type's bits, in whole bytes.
    pub fn kv_memory_bytes(&self, num_tokens: usize, num_layers: usize, num_kv_heads: usize) -> (r: usize)
        requires
            2 * num_tokens <= usize::MAX,
            2 * num_tokens * num_layers <= usize::MAX,
            2 * num_tokens * num_layers * num_kv_heads <= usize::MAX,
            2 * num_tokens * num_layers * num_kv_heads * self.spec_dim() <= usize::MAX,
            2 * num_tokens * num_layers * num_kv_heads * self.spec_dim() * tq_bits(self.spec_type())
                <= usize::MAX,
        ensures
            r == 2 * num_tokens * num_layers * num_kv_heads * self.spec_dim() * tq_bits(
                self.spec_type(),
            ) / 8,
    {
        let bits = self.bits_per_element();
        let elements = 2 * num_tokens * num_layers * num_kv_heads * self.dim;
        (elements * bits) / 8
    }
}


/// With a dimension that is a multiple of 4, the compressed cache takes exactly
/// `bits / 16` of the FP16 cache of two bytes per element: what
/// `kv_memory_bytes` gives, times 16, is the FP16 size times the bits.
pub proof fn lemma_kv_memory_ratio(t: TqType, num_tokens: nat, num_layers: nat, num_kv_heads: nat, dim: nat)
    requires
        dim % 4 == 0,
    ensures
        (2 * num_tokens * num_layers * num_kv_heads * dim * tq_bits(t) / 8) * 16 == (2 * num_tokens
            * num_layers * num_kv_heads * dim * 2) * tq_bits(t),
{
    let m = dim / 4;
    let k = num_tokens * num_layers * num_kv_heads * m;
    let b = tq_bits(t);
    assert(2 * num_tokens * num_layers * num_kv_heads * dim == 8 * k) by (nonlinear_arith)
        requires
            dim == 4 * m,
            k == num_tokens * num_layers * num_kv_heads * m,
    ;
    assert((8 * k * b) / 8 == k * b) by (nonlinear_arith);
    assert((8 * k) * b == 8 * k * b) by (nonlinear_arith);
    assert((k * b) * 16 == (8 * k * 2) * b) by (nonlinear_arith);
}

} // verus!
