//! What the application recommends for the machine it runs on.
use vstd::prelude::*;

verus! {

/// The context length and KV-cache width recommended for a machine with
/// `total_memory_gb` gigabytes of memory (whole gigabytes; a fraction never
/// crosses a threshold): 128K tokens at 3 bits from 64 GB, 64K from 32 GB,
/// 32K from 16 GB, and 16K at 4 bits below that.
pub fn recommended_settings(total_memory_gb: u64) -> (r: (u32, u8))
    ensures
        total_memory_gb >= 64 ==> r == (131072u32, 3u8),
        32 <= total_memory_gb < 64 ==> r == (65536u32, 3u8),
        16 <= total_memory_gb < 32 ==> r == (32768u32, 3u8),
        total_memory_gb < 16 ==> r == (16384u32, 4u8),
{
    if total_memory_gb >= 64 {
        (131072, 3)
    } else if total_memory_gb >= 32 {
        (65536, 3)
    } else if total_memory_gb >= 16 {
        (32768, 3)
    } else {
        (16384, 4)
    }
}

/// The name of the GPU: Apple Silicon's Metal on macOS, unknown elsewhere.
pub fn detect_gpu_name(is_macos: bool) -> (r: Option<String>)
    ensures
        is_macos ==> (r matches Some(s) && s@ == "Apple Silicon (Metal)"@),
        !is_macos ==> r is None,
{
    if is_macos {
        Some(String::from_str("Apple Silicon (Metal)"))
    } else {
        None
    }
}

} // verus!
