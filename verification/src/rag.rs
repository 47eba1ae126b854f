//! Retrieval-augmented generation: documents, their chunks, the index that
//! searches them, and the pipeline that ties these together.
use vstd::prelude::*;

pub mod chunker;
pub mod embedder;
pub mod index;
pub mod parsers;
pub mod pipeline;

verus! {

/// The kind of an ingested document.
#[derive(Debug, Clone, PartialEq)]
pub enum DocType {
    PlainText,
    Markdown,
    /// Source code, with its language (the file extension).
    Code(String),
    Pdf,
    Docx,
    Html,
}

/// A document ingested into the pipeline.
#[derive(Debug, Clone)]
pub struct Document {
    pub id: String,
    pub path: String,
    pub title: String,
    pub content: String,
    pub doc_type: DocType,
    pub size_bytes: u64,
    pub last_modified: i64,
}

/// A piece of a document. `embedding` holds the IEEE-754 bit patterns of
/// the embedding's `f32` components; `tq_embedding` its compressed form.
#[derive(Debug, Clone)]
pub struct Chunk {
    pub id: String,
    pub document_id: String,
    pub content: String,
    pub start_offset: usize,
    pub end_offset: usize,
    pub chunk_index: usize,
    pub embedding: Option<Vec<u32>>,
    pub tq_embedding: Option<Vec<u8>>,
}

/// The content of a chunk, strings as characters.
pub struct ChunkView {
    pub id: Seq<char>,
    pub document_id: Seq<char>,
    pub content: Seq<char>,
    pub start_offset: usize,
    pub end_offset: usize,
    pub chunk_index: usize,
    pub embedding: Option<Seq<u32>>,
    pub tq_embedding: Option<Seq<u8>>,
}

/// The content of an optional vector.
pub open spec fn opt_view<T>(v: Option<Vec<T>>) -> Option<Seq<T>> {
    match v {
        Some(x) => Some(x@),
        None => None,
    }
}

impl View for Chunk {
    type V = ChunkView;

    open spec fn view(&self) -> ChunkView {
        ChunkView {
            id: self.id@,
            document_id: self.document_id@,
            content: self.content@,
            start_offset: self.start_offset,
            end_offset: self.end_offset,
            chunk_index: self.chunk_index,
            embedding: opt_view(self.embedding),
            tq_embedding: opt_view(self.tq_embedding),
        }
    }
}

fn copy_u32s(v: &Vec<u32>) -> (r: Vec<u32>)
    ensures
        r@ == v@,
{
    let mut r: Vec<u32> = Vec::new();
    let mut i: usize = 0;
    while i < v.len()
        invariant
            i <= v.len(),
            r@ == v@.subrange(0, i as int),
        decreases v.len() - i,
    {
        r.push(v[i]);
        i = i + 1;
        assert(r@ =~= v@.subrange(0, i as int));
    }
    assert(v@.subrange(0, v.len() as int) =~= v@);
    r
}

fn copy_u8s(v: &Vec<u8>) -> (r: Vec<u8>)
    ensures
        r@ == v@,
{
    let mut r: Vec<u8> = Vec::new();
    let mut i: usize = 0;
    while i < v.len()
        invariant
            i <= v.len(),
            r@ == v@.subrange(0, i as int),
        decreases v.len() - i,
    {
        r.push(v[i]);
        i = i + 1;
        assert(r@ =~= v@.subrange(0, i as int));
    }
    assert(v@.subrange(0, v.len() as int) =~= v@);
    r
}

impl Chunk {
    /// A copy of this chunk.
    pub fn duplicate(&self) -> (r: Chunk)
        ensures
            r@ == self@,
    {
        Chunk {
            id: self.id.clone(),
            document_id: self.document_id.clone(),
            content: self.content.clone(),
            start_offset: self.start_offset,
            end_offset: self.end_offset,
            chunk_index: self.chunk_index,
            embedding: match &self.embedding {
                Some(e) => Some(copy_u32s(e)),
                None => None,
            },
            tq_embedding: match &self.tq_embedding {
                Some(e) => Some(copy_u8s(e)),
                None => None,
            },
        }
    }
}

/// A search hit. Its relevance is the fraction `matched_terms / query_terms`
/// of the query's terms that the chunk contains.
#[derive(Debug, Clone)]
pub struct SearchResult {
    pub chunk: Chunk,
    pub matched_terms: usize,
    pub query_terms: usize,
    pub document_path: String,
    pub document_title: String,
}

} // verus!
