//! The RAG pipeline: documents are chunked into the index, searched, and the
//! hits rendered as context for a prompt.
use vstd::prelude::*;

use crate::rag::chunker::{chunk_document, is_chunk_of, offsets_fit, split_by_structure_spec};
use crate::rag::index::{query_terms, search_ranking, is_hit, VectorIndex};
use crate::rag::{ChunkView, Document, SearchResult};
use crate::text::{decimal, occurs_at, push_decimal, push_str_chars, string_from_chars, utf8_len};

verus! {

broadcast use vstd::seq::group_seq_axioms;

/// RAG pipeline configuration. `min_relevance_score_bits` holds the IEEE-754
/// bit pattern of the `f32` threshold.
#[derive(Debug, Clone)]
pub struct RagConfig {
    pub chunk_size: usize,
    pub chunk_overlap: usize,
    pub max_results: usize,
    pub min_relevance_score_bits: u32,
    pub embedding_model: String,
    pub use_tq_compression: bool,
    pub tq_bits: u8,
}

impl Default for RagConfig {
    /// Chunks of 512 bytes overlapping by 64, five results, a relevance
    /// threshold of 0.3, the nomic embedding model, and 3-bit TurboQuant
    /// compression of the embeddings.
    fn default() -> (r: Self)
        ensures
            r.chunk_size == 512,
            r.chunk_overlap == 64,
            r.max_results == 5,
            r.min_relevance_score_bits == 0x3e99_999a,
            r.embedding_model@ == "nomic-embed-text-v1.5"@,
            r.use_tq_compression,
            r.tq_bits == 3,
    {
        RagConfig {
            chunk_size: 512,
            chunk_overlap: 64,
            max_results: 5,
            min_relevance_score_bits: 0x3e99_999a,
            embedding_model: String::from_str("nomic-embed-text-v1.5"),
            use_tq_compression: true,
            tq_bits: 3,
        }
    }
}

/// The RAG pipeline.
pub struct RagPipeline {
    config: RagConfig,
    index: VectorIndex,
    documents: Vec<Document>,
}

/// The heading of a rendered context.
pub open spec fn context_heading() -> Seq<char> {
    "## Relevant Context\n\n"@
}

/// The rendering of hit number `n` (counted from one), whose score reads `label`.
pub open spec fn source_section(n: nat, r: SearchResult, label: Seq<char>) -> Seq<char> {
    "### Source "@ + decimal(n) + ": "@ + r.document_title@ + " (score: "@ + label + ")\n```\n"@
        + r.chunk.content@ + "\n```\n\n"@
}

/// The renderings of the hits `rs` with score labels `labels`.
pub open spec fn source_sections(rs: Seq<SearchResult>, labels: Seq<String>) -> Seq<char>
    decreases rs.len(),
{
    if rs.len() == 0 {
        seq![]
    } else {
        source_sections(rs.drop_last(), labels) + source_section(
            rs.len() as nat,
            rs.last(),
            labels[rs.len() - 1]@,
        )
    }
}

/// The renderings of the first hits are the beginning of the renderings of
/// all of them.
proof fn lemma_sections_prefix(rs: Seq<SearchResult>, labels: Seq<String>, j: int)
    requires
        0 <= j <= rs.len(),
    ensures
        source_sections(rs.subrange(0, j), labels).len() <= source_sections(rs, labels).len(),
        source_sections(rs, labels).subrange(0, source_sections(rs.subrange(0, j), labels).len() as int)
            == source_sections(rs.subrange(0, j), labels),
    decreases rs.len(),
{
    if j == rs.len() {
        assert(rs.subrange(0, j) =~= rs);
        assert(source_sections(rs, labels).subrange(0, source_sections(rs, labels).len() as int)
            =~= source_sections(rs, labels));
    } else {
        let init = rs.drop_last();
        lemma_sections_prefix(init, labels, j);
        assert(init.subrange(0, j) =~= rs.subrange(0, j));
        let p = source_sections(rs.subrange(0, j), labels);
        let si = source_sections(init, labels);
        let sec = source_section(rs.len() as nat, rs.last(), labels[rs.len() - 1]@);
        assert(source_sections(rs, labels) == si + sec);
        assert((si + sec).subrange(0, p.len() as int) =~= si.subrange(0, p.len() as int));
    }
}

/// Where hit `k` (counted from zero) begins in the rendered context.
pub open spec fn source_offset(rs: Seq<SearchResult>, labels: Seq<String>, k: int) -> int {
    (context_heading().len() + source_sections(rs.subrange(0, k), labels).len()) as int
}

/// Each hit is rendered under its own number, in order: in the context
/// rendered for hits `rs`, hit `k` (counted from zero) begins with
/// `### Source <k + 1>: <title> (score: <label>)` followed by its text in a
/// code block; the next hit begins right after it, the first right after the
/// heading, and the context ends with the last.
pub proof fn lemma_sources_numbered(rs: Seq<SearchResult>, labels: Seq<String>, k: int)
    requires
        labels.len() == rs.len(),
        0 <= k < rs.len(),
    ensures
        occurs_at(
            "## Relevant Context\n\n"@ + source_sections(rs, labels),
            "### Source "@ + decimal((k + 1) as nat) + ": "@ + rs[k].document_title@ + " (score: "@ + labels[k]@
                + ")\n```\n"@ + rs[k].chunk.content@ + "\n```\n\n"@,
            source_offset(rs, labels, k),
        ),
        source_offset(rs, labels, k + 1) == source_offset(rs, labels, k) + ("### Source "@ + decimal(
            (k + 1) as nat,
        ) + ": "@ + rs[k].document_title@ + " (score: "@ + labels[k]@ + ")\n```\n"@ + rs[k].chunk.content@
            + "\n```\n\n"@).len(),
        source_offset(rs, labels, 0) == "## Relevant Context\n\n"@.len(),
        source_offset(rs, labels, rs.len() as int) == ("## Relevant Context\n\n"@ + source_sections(
            rs,
            labels,
        )).len(),
{
    assert(rs.subrange(0, 0) =~= Seq::<SearchResult>::empty());
    assert(rs.subrange(0, rs.len() as int) =~= rs);
    let h = context_heading();
    let ctx = h + source_sections(rs, labels);
    let sk = source_sections(rs.subrange(0, k), labels);
    let sub = rs.subrange(0, k + 1);
    assert(sub.drop_last() =~= rs.subrange(0, k));
    assert(sub.last() == rs[k]);
    let sec = source_section((k + 1) as nat, rs[k], labels[k]@);
    assert(source_sections(sub, labels) == sk + sec);
    lemma_sections_prefix(rs, labels, k + 1);
    let total = source_sections(rs, labels);
    let off: int = (h.len() + sk.len()) as int;
    let n: int = sec.len() as int;
    assert(total.subrange(0, (sk + sec).len() as int) == sk + sec);
    assert(ctx.subrange(off, off + n) =~= sec) by {
        assert forall|i: int| 0 <= i < sec.len() implies ctx.subrange(off, off + n)[i] == sec[i] by {
            assert(ctx[off + i] == total[sk.len() + i]);
            assert(total[sk.len() + i] == total.subrange(0, (sk + sec).len() as int)[sk.len() + i]);
            assert((sk + sec)[sk.len() + i] == sec[i]);
        }
    }
}

impl RagPipeline {
    pub closed spec fn spec_config(&self) -> RagConfig {
        self.config
    }

    pub closed spec fn spec_index(&self) -> VectorIndex {
        self.index
    }

    pub closed spec fn spec_documents(&self) -> Seq<Document> {
        self.documents@
    }

    /// A pipeline with no documents, its index stored under `index_path`
    /// (creating the directory is the caller's part).
    pub fn new(config: RagConfig, index_path: &str) -> (r: Self)
        ensures
            r.spec_config() == config,
            r.spec_index().spec_chunks() == Seq::<ChunkView>::empty(),
            r.spec_index().spec_path() == index_path@,
            r.spec_index().spec_use_tq() == config.use_tq_compression,
            r.spec_index().spec_tq_bits() == config.tq_bits,
            r.spec_documents() == Seq::<Document>::empty(),
    {
        let index = VectorIndex::new(index_path, config.use_tq_compression, config.tq_bits);
        RagPipeline { config, index, documents: Vec::new() }
    }

    /// Ingests a parsed document: chunks it with the configured size and
    /// overlap, adds the chunks to the index and keeps the document.
    /// Returns the number of chunks.
    pub fn ingest_document(&mut self, doc: Document) -> (r: usize)
        requires
            utf8_len(doc.content@) <= usize::MAX,
            offsets_fit(
                split_by_structure_spec(doc.content@, old(self).spec_config().chunk_size as nat),
                old(self).spec_config().chunk_overlap as nat,
            ),
        ensures
            final(self).spec_config() == old(self).spec_config(),
            final(self).spec_documents() == old(self).spec_documents().push(doc),
            final(self).spec_index().spec_path() == old(self).spec_index().spec_path(),
            final(self).spec_index().spec_use_tq() == old(self).spec_index().spec_use_tq(),
            final(self).spec_index().spec_tq_bits() == old(self).spec_index().spec_tq_bits(),
            final(self).spec_index().spec_chunks().len() == old(self).spec_index().spec_chunks().len()
                + r,
            final(self).spec_index().spec_chunks().subrange(
                0,
                old(self).spec_index().spec_chunks().len() as int,
            ) == old(self).spec_index().spec_chunks(),
            doc.content@.len() == 0 ==> r == 0,
            doc.content@.len() > 0 ==> {
                let pieces = split_by_structure_spec(doc.content@, old(self).spec_config().chunk_size as nat);
                &&& r == pieces.len()
                &&& forall|i: int| 0 <= i < r ==> is_chunk_of(
                    #[trigger] final(self).spec_index().spec_chunks()[old(self).spec_index().spec_chunks().len() + i],
                    doc,
                    pieces,
                    old(self).spec_config().chunk_overlap as nat,
                    i,
                )
            },
    {
        let chunks = chunk_document(&doc, self.config.chunk_size, self.config.chunk_overlap);
        let ghost start = self.index.spec_chunks();
        let mut i: usize = 0;
        while i < chunks.len()
            invariant
                i <= chunks.len(),
                self.config == old(self).config,
                self.documents == old(self).documents,
                start == old(self).index.spec_chunks(),
                self.index.spec_path() == old(self).index.spec_path(),
                self.index.spec_use_tq() == old(self).index.spec_use_tq(),
                self.index.spec_tq_bits() == old(self).index.spec_tq_bits(),
                self.index.spec_chunks().len() == start.len() + i,
                self.index.spec_chunks().subrange(0, start.len() as int) == start,
                forall|k: int| 0 <= k < i ==> #[trigger] self.index.spec_chunks()[start.len() + k] == chunks@[k]@,
            decreases chunks.len() - i,
        {
            let ghost before = self.index.spec_chunks();
            let _ = self.index.add_chunk(&chunks[i]);
            proof {
                assert(self.index.spec_chunks().subrange(0, start.len() as int) =~= before.subrange(0, start.len() as int));
                assert forall|k: int| 0 <= k < i + 1 implies #[trigger] self.index.spec_chunks()[start.len() + k] == chunks@[k]@ by {
                    if k < i {
                        assert(self.index.spec_chunks()[start.len() + k] == before[start.len() + k]);
                    }
                }
            }
            i = i + 1;
        }
        let n = chunks.len();
        self.documents.push(doc);
        proof {
            if doc.content@.len() > 0 {
                let pieces = split_by_structure_spec(doc.content@, self.config.chunk_size as nat);
                assert forall|k: int| 0 <= k < n implies is_chunk_of(
                    #[trigger] self.index.spec_chunks()[start.len() + k],
                    doc,
                    pieces,
                    self.config.chunk_overlap as nat,
                    k,
                ) by {
                    assert(is_chunk_of(chunks@[k]@, doc, pieces, self.config.chunk_overlap as nat, k));
                    assert(self.index.spec_chunks()[start.len() + k] == chunks@[k]@);
                }
            }
        }
        n
    }

    /// Keyword search over the index, for at most `max_results` hits (the
    /// configured number when `None`).
    pub fn search(&self, query: &str, max_results: Option<usize>) -> (r: Vec<SearchResult>)
        ensures
            ({
                let k = match max_results {
                    Some(k) => k,
                    None => self.spec_config().max_results,
                };
                let ranking = search_ranking(self.spec_index().spec_chunks(), query@, k as nat);
                &&& r.len() == ranking.len()
                &&& forall|t: int|
                    0 <= t < r.len() ==> is_hit(
                        #[trigger] r@[t],
                        self.spec_index().spec_chunks()[ranking[t].0 as int],
                        ranking[t].1,
                        query_terms(query@).len(),
                    )
            }),
    {
        let k = match max_results {
            Some(k) => k,
            None => self.config.max_results,
        };
        self.index.search_text(query, k)
    }

    /// Renders search hits as prompt context: nothing without hits;
    /// otherwise a heading, then each hit numbered from one with its
    /// document's title, its score as `score_labels` gives it, and its text
    /// in a code block.
    pub fn build_context(&self, results: &Vec<SearchResult>, score_labels: &Vec<String>) -> (r: String)
        requires
            score_labels.len() == results.len(),
        ensures
            results.len() == 0 ==> r@ == Seq::<char>::empty(),
            results.len() > 0 ==> r@ == context_heading() + source_sections(results@, score_labels@),
    {
        if results.len() == 0 {
            return String::new();
        }
        let mut v: Vec<char> = Vec::new();
        push_str_chars(&mut v, "## Relevant Context\n\n");
        let mut i: usize = 0;
        while i < results.len()
            invariant
                i <= results.len(),
                score_labels.len() == results.len(),
                v@ == context_heading() + source_sections(results@.subrange(0, i as int), score_labels@),
            decreases results.len() - i,
        {
            let r = &results[i];
            push_str_chars(&mut v, "### Source ");
            push_decimal(&mut v, (i as u64) + 1);
            push_str_chars(&mut v, ": ");
            push_str_chars(&mut v, r.document_title.as_str());
            push_str_chars(&mut v, " (score: ");
            push_str_chars(&mut v, score_labels[i].as_str());
            push_str_chars(&mut v, ")\n```\n");
            push_str_chars(&mut v, r.chunk.content.as_str());
            push_str_chars(&mut v, "\n```\n\n");
            proof {
                let sub = results@.subrange(0, i + 1);
                assert(sub.drop_last() =~= results@.subrange(0, i as int));
                assert(sub.last() == results@[i as int]);
                assert(sub.len() == i + 1);
            }
            i = i + 1;
        }
        assert(results@.subrange(0, results.len() as int) =~= results@);
        string_from_chars(v.as_slice())
    }

    /// The number of documents ingested.
    pub fn document_count(&self) -> (r: usize)
        ensures
            r == self.spec_documents().len(),
    {
        self.documents.len()
    }

    /// The number of chunks in the index.
    pub fn chunk_count(&self) -> (r: usize)
        ensures
            r == self.spec_index().spec_chunks().len(),
    {
        self.index.len()
    }

    /// The index, for searches the pipeline does not make itself.
    pub fn index(&self) -> (r: &VectorIndex)
        ensures
            *r == self.spec_index(),
    {
        &self.index
    }

    /// The pipeline's configuration.
    pub fn config(&self) -> (r: &RagConfig)
        ensures
            *r == self.spec_config(),
    {
        &self.config
    }
}

} // verus!
