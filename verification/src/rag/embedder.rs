//! The embedding model's state. Until a model backend is linked, a loaded
//! embedder gives the zero vector for every text. Embeddings are vectors of
//! IEEE-754 `f32` bit patterns (`0` is `0.0`).
use vstd::prelude::*;

use crate::rag::{Chunk, ChunkView};
use crate::text::concat_str;

verus! {

/// Embedding model configuration.
#[derive(Debug, Clone)]
pub struct EmbedderConfig {
    pub model_path: String,
    pub embedding_dim: usize,
    pub batch_size: usize,
    pub normalize: bool,
}

impl Default for EmbedderConfig {
    /// No model path, 768 dimensions (nomic-embed-text v1.5), batches of 32,
    /// normalised.
    fn default() -> (r: Self)
        ensures
            r.model_path@ == Seq::<char>::empty(),
            r.embedding_dim == 768,
            r.batch_size == 32,
            r.normalize,
    {
        EmbedderConfig {
            model_path: String::new(),
            embedding_dim: 768,
            batch_size: 32,
            normalize: true,
        }
    }
}

/// A local embedding model.
pub struct Embedder {
    config: EmbedderConfig,
    is_loaded: bool,
}

/// The embedding of any text: `dim` zero components.
pub open spec fn zero_embedding(dim: nat) -> Seq<u32> {
    Seq::new(dim, |i: int| 0u32)
}

/// The error when embedding before the model is loaded.
pub open spec fn not_loaded_error() -> Seq<char> {
    "Embedding model not loaded"@
}

impl Embedder {
    pub closed spec fn spec_config(&self) -> EmbedderConfig {
        self.config
    }

    pub closed spec fn spec_loaded(&self) -> bool {
        self.is_loaded
    }

    /// An embedder for `config`, not loaded.
    pub fn new(config: EmbedderConfig) -> (r: Self)
        ensures
            r.spec_config() == config,
            !r.spec_loaded(),
    {
        Embedder { config, is_loaded: false }
    }

    /// Loads the model: fails when no model path is configured.
    pub fn load(&mut self) -> (r: Result<(), String>)
        ensures
            final(self).spec_config() == old(self).spec_config(),
            old(self).spec_config().model_path@.len() == 0 ==> (r matches Err(e) && e@
                == "No embedding model path configured"@) && final(self).spec_loaded()
                == old(self).spec_loaded(),
            old(self).spec_config().model_path@.len() > 0 ==> r is Ok && final(self).spec_loaded(),
    {
        if self.config.model_path.as_str().is_empty() {
            return Err(String::from_str("No embedding model path configured"));
        }
        self.is_loaded = true;
        Ok(())
    }

    /// The embedding of a text: an error before loading, else the zero vector.
    pub fn embed_text(&self, _text: &str) -> (r: Result<Vec<u32>, String>)
        ensures
            !self.spec_loaded() ==> (r matches Err(e) && e@ == not_loaded_error()),
            self.spec_loaded() ==> (r matches Ok(v) && v@ == zero_embedding(
                self.spec_config().embedding_dim as nat,
            )),
    {
        if !self.is_loaded {
            return Err(String::from_str("Embedding model not loaded"));
        }
        let mut v: Vec<u32> = Vec::new();
        let mut i: usize = 0;
        let n = self.config.embedding_dim;
        while i < n
            invariant
                i <= n,
                v@ == zero_embedding(i as nat),
            decreases n - i,
        {
            v.push(0u32);
            i = i + 1;
            assert(v@ =~= zero_embedding(i as nat));
        }
        Ok(v)
    }

    /// Embeds every chunk: an error before loading (the chunks untouched),
    /// else each chunk gets the embedding of its content.
    pub fn embed_chunks(&self, chunks: &mut Vec<Chunk>) -> (r: Result<(), String>)
        ensures
            final(chunks).len() == old(chunks).len(),
            !self.spec_loaded() ==> (r matches Err(e) && e@ == not_loaded_error()) && final(chunks)@ == old(chunks)@,
            self.spec_loaded() ==> r is Ok && forall|i: int|
                0 <= i < final(chunks).len() ==> {
                    let c: ChunkView = #[trigger] final(chunks)@[i]@;
                    &&& c.embedding == Some(
                        zero_embedding(self.spec_config().embedding_dim as nat),
                    )
                    &&& c.id == old(chunks)@[i]@.id
                    &&& c.document_id == old(chunks)@[i]@.document_id
                    &&& c.content == old(chunks)@[i]@.content
                    &&& c.start_offset == old(chunks)@[i]@.start_offset
                    &&& c.end_offset == old(chunks)@[i]@.end_offset
                    &&& c.chunk_index == old(chunks)@[i]@.chunk_index
                    &&& c.tq_embedding == old(chunks)@[i]@.tq_embedding
                },
    {
        if !self.is_loaded {
            return Err(String::from_str("Embedding model not loaded"));
        }
        let ghost old_chunks = chunks@;
        let mut i: usize = 0;
        while i < chunks.len()
            invariant
                self.spec_loaded(),
                i <= chunks.len(),
                chunks.len() == old_chunks.len(),
                forall|k: int| i <= k < chunks.len() ==> chunks@[k] == old_chunks[k],
                forall|k: int|
                    0 <= k < i ==> {
                        let c: ChunkView = #[trigger] chunks@[k]@;
                        &&& c.embedding == Some(
                            zero_embedding(self.spec_config().embedding_dim as nat),
                        )
                        &&& c.id == old_chunks[k]@.id
                        &&& c.document_id == old_chunks[k]@.document_id
                        &&& c.content == old_chunks[k]@.content
                        &&& c.start_offset == old_chunks[k]@.start_offset
                        &&& c.end_offset == old_chunks[k]@.end_offset
                        &&& c.chunk_index == old_chunks[k]@.chunk_index
                        &&& c.tq_embedding == old_chunks[k]@.tq_embedding
                    },
            decreases chunks.len() - i,
        {
            let e = match self.embed_text(chunks[i].content.as_str()) {
                Ok(v) => v,
                Err(_) => {
                    return Err(String::from_str("Embedding model not loaded"));
                },
            };
            let mut c = chunks[i].duplicate();
            c.embedding = Some(e);
            let ghost before = chunks@;
            chunks.set(i, c);
            proof {
                assert forall|k: int| 0 <= k < i + 1 implies {
                    let c: ChunkView = #[trigger] chunks@[k]@;
                    &&& c.embedding == Some(
                        zero_embedding(self.spec_config().embedding_dim as nat),
                    )
                    &&& c.id == old_chunks[k]@.id
                    &&& c.document_id == old_chunks[k]@.document_id
                    &&& c.content == old_chunks[k]@.content
                    &&& c.start_offset == old_chunks[k]@.start_offset
                    &&& c.end_offset == old_chunks[k]@.end_offset
                    &&& c.chunk_index == old_chunks[k]@.chunk_index
                    &&& c.tq_embedding == old_chunks[k]@.tq_embedding
                } by {
                    if k < i {
                        assert(chunks@[k] == before[k]);
                    }
                }
            }
            i = i + 1;
        }
        Ok(())
    }

    /// The embedding of a query, which is that of the text
    /// `search_query: ` followed by the query (the nomic convention).
    pub fn embed_query(&self, query: &str) -> (r: Result<Vec<u32>, String>)
        ensures
            !self.spec_loaded() ==> (r matches Err(e) && e@ == not_loaded_error()),
            self.spec_loaded() ==> (r matches Ok(v) && v@ == zero_embedding(
                self.spec_config().embedding_dim as nat,
            )),
    {
        let prefixed = concat_str("search_query: ", query);
        self.embed_text(prefixed.as_str())
    }

    /// The dimension of the embeddings.
    pub fn dim(&self) -> (r: usize)
        ensures
            r == self.spec_config().embedding_dim,
    {
        self.config.embedding_dim
    }
}

} // verus!
