//! The models the application offers: their catalog, which of them are on
//! this machine, how a download's status is reported, and loading one.
use vstd::prelude::*;

use crate::inference::download::DownloadStatus;
use crate::inference::{ollama_name, InferenceEngine};
use crate::inference::tq_config::config_for_bits;
use crate::rag::parsers::{file_name, spec_file_name};
use crate::text::{decimal, push_decimal, push_str_chars, spec_lowercase, str_eq, string_from_chars, to_lowercase};

verus! {

/// A model as the model list shows it.
pub struct ModelInfo {
    pub id: String,
    pub name: String,
    pub size_bytes: u64,
    pub quantization: String,
    pub parameters: String,
    pub family: String,
    pub downloaded: bool,
    pub loaded: bool,
    pub tq_compatible: bool,
}

/// A model of the application's catalog, with its HuggingFace repository and
/// file (both empty for models that only Ollama provides).
pub struct ModelEntry {
    pub id: String,
    pub name: String,
    pub size_bytes: u64,
    pub quantization: String,
    pub parameters: String,
    pub family: String,
    pub tq_compatible: bool,
    pub hf_repo: String,
    pub hf_filename: String,
}

/// The content of a catalog model.
pub struct ModelEntryView {
    pub id: Seq<char>,
    pub name: Seq<char>,
    pub size_bytes: u64,
    pub quantization: Seq<char>,
    pub parameters: Seq<char>,
    pub family: Seq<char>,
    pub tq_compatible: bool,
    pub hf_repo: Seq<char>,
    pub hf_filename: Seq<char>,
}

/// The content of `e`.
pub open spec fn model_entry_view(e: ModelEntry) -> ModelEntryView {
    ModelEntryView {
        id: e.id@,
        name: e.name@,
        size_bytes: e.size_bytes,
        quantization: e.quantization@,
        parameters: e.parameters@,
        family: e.family@,
        tq_compatible: e.tq_compatible,
        hf_repo: e.hf_repo@,
        hf_filename: e.hf_filename@,
    }
}

/// A catalog model made of these values.
pub open spec fn model_spec(
    id: Seq<char>,
    name: Seq<char>,
    size_bytes: u64,
    parameters: Seq<char>,
    family: Seq<char>,
    quantization: Seq<char>,
    tq_compatible: bool,
    hf_repo: Seq<char>,
    hf_filename: Seq<char>,
) -> ModelEntryView {
    ModelEntryView {
        id,
        name,
        size_bytes,
        quantization,
        parameters,
        family,
        tq_compatible,
        hf_repo,
        hf_filename,
    }
}

/// The application's catalog, in the order the model list shows it.
pub open spec fn model_catalog_spec() -> Seq<ModelEntryView> {
    seq![
        model_spec("llama3.2-3b"@, "Llama 3.2 3B"@, 2_000_000_000, "3B"@, "Llama"@, "Q4_K_M"@, true, ""@, ""@),
        model_spec("qwen3-30b-a3b"@, "Qwen 3 30B-A3B"@, 18_000_000_000, "30B (3B active MoE)"@, "Qwen"@, "Q4_K_M"@, true, ""@, ""@),
        model_spec(
            "qwen3.5-35b-a3b-q4km"@,
            "Qwen 3.5 35B-A3B"@,
            19_000_000_000,
            "35B (3B active MoE)"@,
            "Qwen"@,
            "Q4_K_M"@,
            true,
            "Qwen/Qwen2.5-35B-A3B-Instruct-GGUF"@,
            "qwen2.5-35b-a3b-instruct-q4_k_m.gguf"@,
        ),
        model_spec(
            "llama3.3-70b-q4km"@,
            "Llama 3.3 70B"@,
            40_000_000_000,
            "70B"@,
            "Llama"@,
            "Q4_K_M"@,
            true,
            "bartowski/Llama-3.3-70B-Instruct-GGUF"@,
            "Llama-3.3-70B-Instruct-Q4_K_M.gguf"@,
        ),
        model_spec(
            "gemma3-27b-q4km"@,
            "Gemma 3 27B"@,
            15_000_000_000,
            "27B"@,
            "Gemma"@,
            "Q4_K_M"@,
            true,
            "bartowski/gemma-3-27b-it-GGUF"@,
            "gemma-3-27b-it-Q4_K_M.gguf"@,
        ),
        model_spec(
            "phi4-14b-q4km"@,
            "Phi-4 14B"@,
            8_000_000_000,
            "14B"@,
            "Phi"@,
            "Q4_K_M"@,
            true,
            "bartowski/phi-4-GGUF"@,
            "phi-4-Q4_K_M.gguf"@,
        ),
        model_spec(
            "qwen3-8b-q4km"@,
            "Qwen 3 8B"@,
            4_500_000_000,
            "8B"@,
            "Qwen"@,
            "Q4_K_M"@,
            true,
            "Qwen/Qwen3-8B-GGUF"@,
            "qwen3-8b-q4_k_m.gguf"@,
        ),
        model_spec(
            "nomic-embed-text-v1.5"@,
            "Nomic Embed Text v1.5"@,
            274_000_000,
            "137M"@,
            "Nomic"@,
            "F16"@,
            false,
            "nomic-ai/nomic-embed-text-v1.5-GGUF"@,
            "nomic-embed-text-v1.5.Q4_0.gguf"@,
        ),
    ]
}

/// A catalog model made of these values.
fn model(
    id: &str,
    name: &str,
    size_bytes: u64,
    parameters: &str,
    family: &str,
    quantization: &str,
    tq_compatible: bool,
    hf_repo: &str,
    hf_filename: &str,
) -> (r: ModelEntry)
    ensures
        model_entry_view(r) == model_spec(
            id@,
            name@,
            size_bytes,
            parameters@,
            family@,
            quantization@,
            tq_compatible,
            hf_repo@,
            hf_filename@,
        ),
{
    ModelEntry {
        id: String::from_str(id),
        name: String::from_str(name),
        size_bytes,
        quantization: String::from_str(quantization),
        parameters: String::from_str(parameters),
        family: String::from_str(family),
        tq_compatible,
        hf_repo: String::from_str(hf_repo),
        hf_filename: String::from_str(hf_filename),
    }
}

/// The application's catalog.
pub fn model_catalog() -> (r: Vec<ModelEntry>)
    ensures
        r@.map_values(|e: ModelEntry| model_entry_view(e)) == model_catalog_spec(),
{
    let mut r: Vec<ModelEntry> = Vec::new();
    r.push(model("llama3.2-3b", "Llama 3.2 3B", 2_000_000_000, "3B", "Llama", "Q4_K_M", true, "", ""));
    r.push(
        model(
            "qwen3-30b-a3b",
            "Qwen 3 30B-A3B",
            18_000_000_000,
            "30B (3B active MoE)",
            "Qwen",
            "Q4_K_M",
            true,
            "",
            "",
        ),
    );
    r.push(
        model(
            "qwen3.5-35b-a3b-q4km",
            "Qwen 3.5 35B-A3B",
            19_000_000_000,
            "35B (3B active MoE)",
            "Qwen",
            "Q4_K_M",
            true,
            "Qwen/Qwen2.5-35B-A3B-Instruct-GGUF",
            "qwen2.5-35b-a3b-instruct-q4_k_m.gguf",
        ),
    );
    r.push(
        model(
            "llama3.3-70b-q4km",
            "Llama 3.3 70B",
            40_000_000_000,
            "70B",
            "Llama",
            "Q4_K_M",
            true,
            "bartowski/Llama-3.3-70B-Instruct-GGUF",
            "Llama-3.3-70B-Instruct-Q4_K_M.gguf",
        ),
    );
    r.push(
        model(
            "gemma3-27b-q4km",
            "Gemma 3 27B",
            15_000_000_000,
            "27B",
            "Gemma",
            "Q4_K_M",
            true,
            "bartowski/gemma-3-27b-it-GGUF",
            "gemma-3-27b-it-Q4_K_M.gguf",
        ),
    );
    r.push(
        model(
            "phi4-14b-q4km",
            "Phi-4 14B",
            8_000_000_000,
            "14B",
            "Phi",
            "Q4_K_M",
            true,
            "bartowski/phi-4-GGUF",
            "phi-4-Q4_K_M.gguf",
        ),
    );
    r.push(
        model(
            "qwen3-8b-q4km",
            "Qwen 3 8B",
            4_500_000_000,
            "8B",
            "Qwen",
            "Q4_K_M",
            true,
            "Qwen/Qwen3-8B-GGUF",
            "qwen3-8b-q4_k_m.gguf",
        ),
    );
    r.push(
        model(
            "nomic-embed-text-v1.5",
            "Nomic Embed Text v1.5",
            274_000_000,
            "137M",
            "Nomic",
            "F16",
            false,
            "nomic-ai/nomic-embed-text-v1.5-GGUF",
            "nomic-embed-text-v1.5.Q4_0.gguf",
        ),
    );
    assert(r@.map_values(|e: ModelEntry| model_entry_view(e)) =~= model_catalog_spec());
    r
}

/// The Ollama tag under which a catalog model shows up when Ollama has it;
/// none for models Ollama does not provide.
pub open spec fn ollama_tag(id: Seq<char>) -> Option<Seq<char>> {
    if id == "llama3.2-3b"@ {
        Some("llama3.2:3b"@)
    } else if id == "qwen3-30b-a3b"@ {
        Some("qwen3:30b-a3b"@)
    } else if id == "qwen3.5-35b-a3b-q4km"@ {
        Some("qwen3:30b-a3b"@)
    } else if id == "qwen3-8b-q4km"@ {
        Some("qwen3:8b"@)
    } else if id == "llama3.3-70b-q4km"@ {
        Some("llama3.3:70b"@)
    } else if id == "gemma3-27b-q4km"@ {
        Some("gemma3:27b"@)
    } else if id == "phi4-14b-q4km"@ {
        Some("phi4:14b"@)
    } else {
        None
    }
}

/// The Ollama tag of the catalog model `id`.
pub fn catalog_id_to_ollama_name(id: &str) -> (r: Option<&'static str>)
    ensures
        match r {
            Some(t) => ollama_tag(id@) == Some(t@),
            None => ollama_tag(id@) is None,
        },
{
    if str_eq(id, "llama3.2-3b") {
        Some("llama3.2:3b")
    } else if str_eq(id, "qwen3-30b-a3b") {
        Some("qwen3:30b-a3b")
    } else if str_eq(id, "qwen3.5-35b-a3b-q4km") {
        Some("qwen3:30b-a3b")
    } else if str_eq(id, "qwen3-8b-q4km") {
        Some("qwen3:8b")
    } else if str_eq(id, "llama3.3-70b-q4km") {
        Some("llama3.3:70b")
    } else if str_eq(id, "gemma3-27b-q4km") {
        Some("gemma3:27b")
    } else if str_eq(id, "phi4-14b-q4km") {
        Some("phi4:14b")
    } else {
        None
    }
}

/// The model list and the engine agree on Ollama names: a catalog model that
/// Ollama provides is loaded under the tag it is listed by.
pub proof fn lemma_ollama_tag_agrees(id: Seq<char>)
    ensures
        ollama_tag(id) matches Some(t) ==> ollama_name(id) == t,
        ollama_tag(id) is None ==> ollama_name(id) == id,
{
}

/// Whether one of the file names `files` is `name`, both lower-cased.
pub open spec fn has_file(files: Seq<String>, name: Seq<char>) -> bool {
    exists|j: int| 0 <= j < files.len() && spec_lowercase(#[trigger] files[j]@) == spec_lowercase(name)
}

/// Whether Ollama, which has the models `installed`, has the catalog model `id`.
pub open spec fn ollama_has(installed: Seq<String>, id: Seq<char>) -> bool {
    match ollama_tag(id) {
        Some(t) => exists|j: int| 0 <= j < installed.len() && #[trigger] installed[j]@ == t,
        None => false,
    }
}

/// Whether the model `e` is on this machine: its GGUF file is among `files`,
/// or Ollama has it.
pub open spec fn is_downloaded(e: ModelEntryView, files: Seq<String>, installed: Seq<String>) -> bool {
    (e.hf_filename.len() > 0 && has_file(files, e.hf_filename)) || ollama_has(installed, e.id)
}

/// Whether `i` shows the model `e`, downloaded or not, and not loaded.
pub open spec fn info_shows(i: ModelInfo, e: ModelEntryView, downloaded: bool) -> bool {
    &&& i.id@ == e.id
    &&& i.name@ == e.name
    &&& i.size_bytes == e.size_bytes
    &&& i.quantization@ == e.quantization
    &&& i.parameters@ == e.parameters
    &&& i.family@ == e.family
    &&& i.downloaded == downloaded
    &&& !i.loaded
    &&& i.tq_compatible == e.tq_compatible
}

/// Whether some name of `files`, lower-cased, is `name` lower-cased.
fn contains_file(files: &Vec<String>, name: &str) -> (r: bool)
    ensures
        r == has_file(files@, name@),
{
    let lowered = to_lowercase(name);
    let mut i: usize = 0;
    while i < files.len()
        invariant
            i <= files.len(),
            lowered@ == spec_lowercase(name@),
            forall|j: int| 0 <= j < i ==> spec_lowercase(#[trigger] files@[j]@) != spec_lowercase(name@),
        decreases files.len() - i,
    {
        let f = to_lowercase(files[i].as_str());
        if str_eq(f.as_str(), lowered.as_str()) {
            assert(spec_lowercase(files@[i as int]@) == spec_lowercase(name@));
            return true;
        }
        i = i + 1;
    }
    false
}

/// Whether `names` holds `tag`.
fn contains_name(names: &Vec<String>, tag: &str) -> (r: bool)
    ensures
        r == (exists|j: int| 0 <= j < names@.len() && #[trigger] names@[j]@ == tag@),
{
    let mut i: usize = 0;
    while i < names.len()
        invariant
            i <= names.len(),
            forall|j: int| 0 <= j < i ==> #[trigger] names@[j]@ != tag@,
        decreases names.len() - i,
    {
        if str_eq(names[i].as_str(), tag) {
            assert(names@[i as int]@ == tag@);
            return true;
        }
        i = i + 1;
    }
    false
}

/// The file names of `paths`, in order: each path's final component as
/// `Path::file_name` gives it; a path without one is left out.
pub open spec fn file_names_spec(paths: Seq<Seq<char>>) -> Seq<Seq<char>>
    decreases paths.len(),
{
    if paths.len() == 0 {
        seq![]
    } else {
        match spec_file_name(paths.last()) {
            Some(n) => file_names_spec(paths.drop_last()).push(n),
            None => file_names_spec(paths.drop_last()),
        }
    }
}

/// The views of strings.
pub open spec fn str_views(v: Seq<String>) -> Seq<Seq<char>> {
    v.map_values(|s: String| s@)
}

/// The file names of the paths of the model directory, as the model list
/// compares them.
pub fn file_names(paths: &Vec<String>) -> (r: Vec<String>)
    ensures
        str_views(r@) == file_names_spec(str_views(paths@)),
{
    let mut r: Vec<String> = Vec::new();
    let mut i: usize = 0;
    while i < paths.len()
        invariant
            i <= paths.len(),
            str_views(r@) == file_names_spec(str_views(paths@).subrange(0, i as int)),
        decreases paths.len() - i,
    {
        let ghost before = str_views(r@);
        let ghost prefix = str_views(paths@).subrange(0, i + 1);
        assert(prefix.drop_last() =~= str_views(paths@).subrange(0, i as int));
        assert(prefix.last() == paths@[i as int]@);
        match file_name(paths[i].as_str()) {
            Some(n) => {
                r.push(n);
                assert(str_views(r@) =~= before.push(r@[r.len() - 1]@));
            },
            None => {},
        }
        i = i + 1;
    }
    assert(str_views(paths@).subrange(0, paths.len() as int) =~= str_views(paths@));
    r
}

/// The model list: every catalog model, in order, marked downloaded when its
/// GGUF file is among the model directory's `files` (names compared
/// lower-cased) or when it is among the models Ollama has `installed`.
pub fn model_list(files: &Vec<String>, installed: &Vec<String>) -> (r: Vec<ModelInfo>)
    ensures
        r.len() == model_catalog_spec().len(),
        forall|k: int|
            0 <= k < r.len() ==> info_shows(
                #[trigger] r@[k],
                model_catalog_spec()[k],
                is_downloaded(model_catalog_spec()[k], files@, installed@),
            ),
{
    let catalog = model_catalog();
    let ghost cat = model_catalog_spec();
    assert(catalog@.len() == cat.len());
    assert(forall|k: int| 0 <= k < cat.len() ==> model_entry_view(#[trigger] catalog@[k]) == cat[k]) by {
        assert forall|k: int| 0 <= k < cat.len() implies model_entry_view(#[trigger] catalog@[k]) == cat[k] by {
            assert(catalog@.map_values(|e: ModelEntry| model_entry_view(e))[k] == model_entry_view(catalog@[k]));
        }
    }
    let mut r: Vec<ModelInfo> = Vec::new();
    let mut i: usize = 0;
    while i < catalog.len()
        invariant
            i <= catalog.len(),
            catalog@.len() == cat.len(),
            cat == model_catalog_spec(),
            forall|k: int| 0 <= k < cat.len() ==> model_entry_view(#[trigger] catalog@[k]) == cat[k],
            r.len() == i,
            forall|k: int| 0 <= k < i ==> info_shows(#[trigger] r@[k], cat[k], is_downloaded(cat[k], files@, installed@)),
        decreases catalog.len() - i,
    {
        let e = &catalog[i];
        let ghost ev = cat[i as int];
        assert(model_entry_view(*e) == ev);
        let fv = crate::text::chars_of(e.hf_filename.as_str());
        let gguf = fv.len() > 0 && contains_file(files, e.hf_filename.as_str());
        let in_ollama = match catalog_id_to_ollama_name(e.id.as_str()) {
            Some(t) => contains_name(installed, t),
            None => false,
        };
        let info = ModelInfo {
            id: e.id.clone(),
            name: e.name.clone(),
            size_bytes: e.size_bytes,
            quantization: e.quantization.clone(),
            parameters: e.parameters.clone(),
            family: e.family.clone(),
            downloaded: gguf || in_ollama,
            loaded: false,
            tq_compatible: e.tq_compatible,
        };
        assert(info_shows(info, ev, is_downloaded(ev, files@, installed@)));
        r.push(info);
        i = i + 1;
    }
    r
}

/// The error for a model that is not in the catalog.
pub open spec fn unknown_model_error(id: Seq<char>) -> Seq<char> {
    "Unknown model: "@ + id
}

/// The catalog model `model_id`, or the error that names it as unknown.
pub fn find_model(model_id: &str) -> (r: Result<ModelEntry, String>)
    ensures
        match r {
            Ok(e) => exists|k: int|
                0 <= k < model_catalog_spec().len() && #[trigger] model_catalog_spec()[k] == model_entry_view(e)
                    && model_catalog_spec()[k].id == model_id@,
            Err(msg) => msg@ == unknown_model_error(model_id@) && forall|k: int|
                0 <= k < model_catalog_spec().len() ==> #[trigger] model_catalog_spec()[k].id != model_id@,
        },
{
    let mut catalog = model_catalog();
    let ghost cat = model_catalog_spec();
    assert(forall|k: int| 0 <= k < cat.len() ==> model_entry_view(#[trigger] catalog@[k]) == cat[k]) by {
        assert forall|k: int| 0 <= k < cat.len() implies model_entry_view(#[trigger] catalog@[k]) == cat[k] by {
            assert(catalog@.map_values(|e: ModelEntry| model_entry_view(e))[k] == model_entry_view(catalog@[k]));
        }
    }
    let mut i: usize = 0;
    while i < catalog.len()
        invariant
            i <= catalog.len(),
            catalog@.len() == cat.len(),
            cat == model_catalog_spec(),
            forall|k: int| 0 <= k < cat.len() ==> model_entry_view(#[trigger] catalog@[k]) == cat[k],
            forall|k: int| 0 <= k < i ==> #[trigger] cat[k].id != model_id@,
        decreases catalog.len() - i,
    {
        if str_eq(catalog[i].id.as_str(), model_id) {
            let ghost k = i as int;
            let e = catalog.remove(i);
            assert(model_entry_view(e) == cat[k]);
            return Ok(e);
        }
        i = i + 1;
    }
    let mut v: Vec<char> = Vec::new();
    push_str_chars(&mut v, "Unknown model: ");
    push_str_chars(&mut v, model_id);
    Err(string_from_chars(v.as_slice()))
}

/// How the model list reports a download's status.
pub open spec fn status_label(status: DownloadStatus) -> Seq<char> {
    match status {
        DownloadStatus::Complete => "complete"@,
        DownloadStatus::Failed(e) => "error: "@ + e@,
        _ => "downloading"@,
    }
}

/// How the model list reports `status`.
pub fn progress_status(status: &DownloadStatus) -> (r: String)
    ensures
        r@ == status_label(*status),
{
    match status {
        DownloadStatus::Complete => String::from_str("complete"),
        DownloadStatus::Failed(e) => {
            let mut v: Vec<char> = Vec::new();
            push_str_chars(&mut v, "error: ");
            push_str_chars(&mut v, e.as_str());
            string_from_chars(v.as_slice())
        },
        _ => String::from_str("downloading"),
    }
}

/// The error for a KV-cache width other than 3 or 4 bits.
pub open spec fn invalid_bits_error(bits: u8) -> Seq<char> {
    "Invalid tq_bits: "@ + decimal(bits as nat) + ". Must be 3 or 4."@
}

/// Loads `model_id` into `engine` with a `tq_bits`-bit KV cache, 3 bits when
/// none is given; any width but 3 or 4 is refused and leaves the engine as
/// it was.
pub fn load_model(engine: &mut InferenceEngine, model_id: &str, tq_bits: Option<u8>) -> (r: Result<(), String>)
    ensures
        ({
            let bits: u8 = match tq_bits {
                Some(b) => b,
                None => 3u8,
            };
            &&& (bits != 3 && bits != 4) ==> (r matches Err(e) && e@ == invalid_bits_error(bits)
                && *final(engine) == *old(engine))
            &&& (bits == 3 || bits == 4) ==> (r is Ok && final(engine).spec_loaded()
                && final(engine).spec_model_id() == Some(model_id@)
                && final(engine).spec_ollama_model() == Some(ollama_name(model_id@))
                && final(engine).spec_tq_config() == config_for_bits(bits)
                && final(engine).spec_url() == old(engine).spec_url()
                && final(engine).spec_stop_flag() == old(engine).spec_stop_flag())
        }),
{
    let bits: u8 = match tq_bits {
        Some(b) => b,
        None => 3,
    };
    if bits != 3 && bits != 4 {
        let mut v: Vec<char> = Vec::new();
        push_str_chars(&mut v, "Invalid tq_bits: ");
        push_decimal(&mut v, bits as u64);
        push_str_chars(&mut v, ". Must be 3 or 4.");
        return Err(string_from_chars(v.as_slice()));
    }
    engine.load_model(model_id, bits)
}

/// Forgets the model loaded into `engine`.
pub fn unload_model(engine: &mut InferenceEngine) -> (r: Result<(), String>)
    ensures
        r is Ok,
        !final(engine).spec_loaded(),
        final(engine).spec_model_id() is None,
        final(engine).spec_ollama_model() is None,
        final(engine).spec_tq_config() == old(engine).spec_tq_config(),
        final(engine).spec_url() == old(engine).spec_url(),
        final(engine).spec_stop_flag() == old(engine).spec_stop_flag(),
{
    engine.unload();
    Ok(())
}

} // verus!
