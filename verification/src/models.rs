//! The curated catalog of models, with where each is found on HuggingFace and
//! how it runs with TurboQuant.
use vstd::prelude::*;

verus! {

/// GGUF model metadata, as read from a file header.
pub struct GgufMetadata {
    pub architecture: String,
    pub name: String,
    pub parameters: u64,
    pub context_length: u32,
    pub embedding_length: u32,
    pub head_count: u32,
    pub head_count_kv: u32,
    pub layer_count: u32,
    pub quantization_version: u32,
}

/// A model of the curated catalog.
pub struct CatalogEntry {
    pub id: String,
    pub name: String,
    pub family: String,
    pub parameters: String,
    pub quantization: String,
    pub huggingface_repo: String,
    pub huggingface_file: String,
    pub size_bytes: u64,
    pub sha256: Option<String>,
    pub tq_compatible: bool,
    pub tq_recommended_bits: u8,
    pub recommended_context: u32,
    pub min_ram_gb: u32,
    pub tags: Vec<String>,
}

/// The characters of each string of `v`.
pub open spec fn string_views(v: Seq<String>) -> Seq<Seq<char>> {
    v.map_values(|s: String| s@)
}

/// Whether `e` holds exactly these values (and no checksum).
pub open spec fn entry_is(
    e: CatalogEntry,
    id: Seq<char>,
    name: Seq<char>,
    family: Seq<char>,
    parameters: Seq<char>,
    quantization: Seq<char>,
    repo: Seq<char>,
    file: Seq<char>,
    size_bytes: u64,
    tq: (bool, u8),
    recommended_context: u32,
    min_ram_gb: u32,
    tags: Seq<Seq<char>>,
) -> bool {
    &&& e.id@ == id
    &&& e.name@ == name
    &&& e.family@ == family
    &&& e.parameters@ == parameters
    &&& e.quantization@ == quantization
    &&& e.huggingface_repo@ == repo
    &&& e.huggingface_file@ == file
    &&& e.size_bytes == size_bytes
    &&& e.sha256 is None
    &&& e.tq_compatible == tq.0
    &&& e.tq_recommended_bits == tq.1
    &&& e.recommended_context == recommended_context
    &&& e.min_ram_gb == min_ram_gb
    &&& string_views(e.tags@) == tags
}

/// Strings made of `v`.
fn strings_of(v: Vec<&str>) -> (r: Vec<String>)
    ensures
        string_views(r@) == v@.map_values(|s: &str| s@),
{
    let mut r: Vec<String> = Vec::new();
    let mut i: usize = 0;
    while i < v.len()
        invariant
            i <= v.len(),
            string_views(r@) == v@.subrange(0, i as int).map_values(|s: &str| s@),
        decreases v.len() - i,
    {
        let ghost before = r@;
        r.push(String::from_str(v[i]));
        proof {
            assert(string_views(r@) =~= string_views(before).push(v@[i as int]@));
            assert(v@.subrange(0, i + 1).map_values(|s: &str| s@) =~= v@.subrange(
                0,
                i as int,
            ).map_values(|s: &str| s@).push(v@[i as int]@));
        }
        i = i + 1;
    }
    assert(v@.subrange(0, v.len() as int) =~= v@);
    r
}

/// A catalog entry without a checksum.
fn entry(
    id: &str,
    name: &str,
    family: &str,
    parameters: &str,
    quantization: &str,
    repo: &str,
    file: &str,
    size_bytes: u64,
    tq: (bool, u8),
    recommended_context: u32,
    min_ram_gb: u32,
    tags: Vec<&str>,
) -> (r: CatalogEntry)
    ensures
        entry_is(
            r,
            id@,
            name@,
            family@,
            parameters@,
            quantization@,
            repo@,
            file@,
            size_bytes,
            tq,
            recommended_context,
            min_ram_gb,
            tags@.map_values(|s: &str| s@),
        ),
{
    CatalogEntry {
        id: String::from_str(id),
        name: String::from_str(name),
        family: String::from_str(family),
        parameters: String::from_str(parameters),
        quantization: String::from_str(quantization),
        huggingface_repo: String::from_str(repo),
        huggingface_file: String::from_str(file),
        size_bytes,
        sha256: None,
        tq_compatible: tq.0,
        tq_recommended_bits: tq.1,
        recommended_context,
        min_ram_gb,
        tags: strings_of(tags),
    }
}

/// The built-in catalog: a mixture-of-experts Qwen, Gemma 3, Phi-4 and the
/// Nomic embedding model.
pub fn get_catalog() -> (r: Vec<CatalogEntry>)
    ensures
        r.len() == 4,
        entry_is(
            r[0],
            "qwen3.5-35b-a3b-q4km"@,
            "Qwen 3.5 35B-A3B (MoE)"@,
            "Qwen"@,
            "35B (3B active)"@,
            "Q4_K_M"@,
            "Qwen/Qwen3.5-35B-A3B-GGUF"@,
            "qwen3.5-35b-a3b-q4_k_m.gguf"@,
            19_500_000_000,
            (true, 3),
            65536,
            16,
            seq!["moe"@, "fast"@, "coding"@],
        ),
        entry_is(
            r[1],
            "gemma3-27b-q4km"@,
            "Gemma 3 27B"@,
            "Gemma"@,
            "27B"@,
            "Q4_K_M"@,
            "google/gemma-3-27b-GGUF"@,
            "gemma-3-27b-q4_k_m.gguf"@,
            15_200_000_000,
            (true, 3),
            65536,
            16,
            seq!["google"@, "multimodal"@],
        ),
        entry_is(
            r[2],
            "phi4-14b-q4km"@,
            "Phi-4 14B"@,
            "Phi"@,
            "14B"@,
            "Q4_K_M"@,
            "microsoft/phi-4-GGUF"@,
            "phi-4-q4_k_m.gguf"@,
            8_100_000_000,
            (true, 3),
            32768,
            8,
            seq!["microsoft"@, "efficient"@, "reasoning"@],
        ),
        entry_is(
            r[3],
            "nomic-embed-text-v1.5"@,
            "Nomic Embed Text v1.5"@,
            "Nomic"@,
            "137M"@,
            "F16"@,
            "nomic-ai/nomic-embed-text-v1.5-GGUF"@,
            "nomic-embed-text-v1.5.f16.gguf"@,
            274_000_000,
            (false, 0),
            8192,
            2,
            seq!["embedding"@, "rag"@],
        ),
{
    let t0 = vec!["moe", "fast", "coding"];
    let t1 = vec!["google", "multimodal"];
    let t2 = vec!["microsoft", "efficient", "reasoning"];
    let t3 = vec!["embedding", "rag"];
    proof {
        assert(t0@.map_values(|s: &str| s@) =~= seq!["moe"@, "fast"@, "coding"@]);
        assert(t1@.map_values(|s: &str| s@) =~= seq!["google"@, "multimodal"@]);
        assert(t2@.map_values(|s: &str| s@) =~= seq!["microsoft"@, "efficient"@, "reasoning"@]);
        assert(t3@.map_values(|s: &str| s@) =~= seq!["embedding"@, "rag"@]);
    }
    let mut r: Vec<CatalogEntry> = Vec::new();
    r.push(
        entry(
            "qwen3.5-35b-a3b-q4km",
            "Qwen 3.5 35B-A3B (MoE)",
            "Qwen",
            "35B (3B active)",
            "Q4_K_M",
            "Qwen/Qwen3.5-35B-A3B-GGUF",
            "qwen3.5-35b-a3b-q4_k_m.gguf",
            19_500_000_000,
            (true, 3),
            65536,
            16,
            t0,
        ),
    );
    r.push(
        entry(
            "gemma3-27b-q4km",
            "Gemma 3 27B",
            "Gemma",
            "27B",
            "Q4_K_M",
            "google/gemma-3-27b-GGUF",
            "gemma-3-27b-q4_k_m.gguf",
            15_200_000_000,
            (true, 3),
            65536,
            16,
            t1,
        ),
    );
    r.push(
        entry(
            "phi4-14b-q4km",
            "Phi-4 14B",
            "Phi",
            "14B",
            "Q4_K_M",
            "microsoft/phi-4-GGUF",
            "phi-4-q4_k_m.gguf",
            8_100_000_000,
            (true, 3),
            32768,
            8,
            t2,
        ),
    );
    r.push(
        entry(
            "nomic-embed-text-v1.5",
            "Nomic Embed Text v1.5",
            "Nomic",
            "137M",
            "F16",
            "nomic-ai/nomic-embed-text-v1.5-GGUF",
            "nomic-embed-text-v1.5.f16.gguf",
            274_000_000,
            (false, 0),
            8192,
            2,
            t3,
        ),
    );
    r
}

} // verus!
