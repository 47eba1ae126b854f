//! The chunk index: chunks in insertion order, keyword search over them,
//! and the memory accounting of their embeddings.
use vstd::prelude::*;

use crate::rag::{Chunk, ChunkView, SearchResult};
use crate::text::{
    chars_of, contains_chars, contains_seq, spec_lowercase, to_lowercase, utf8_len, views, words,
    words_of,
};

verus! {

broadcast use vstd::seq::group_seq_axioms;

/// An index of chunks, with the compression settings of their embeddings.
pub struct VectorIndex {
    chunks: Vec<Chunk>,
    path: String,
    use_tq: bool,
    tq_bits: u8,
}

/// How many of `terms` occur in `content` (a term counts once per occurrence
/// in `terms`).
pub open spec fn count_contained(terms: Seq<Seq<char>>, content: Seq<char>) -> nat
    decreases terms.len(),
{
    if terms.len() == 0 {
        0
    } else {
        count_contained(terms.drop_last(), content) + if contains_seq(content, terms.last()) {
            1nat
        } else {
            0nat
        }
    }
}

/// The terms of a query: the words of its lowercase form.
pub open spec fn query_terms(query: Seq<char>) -> Seq<Seq<char>> {
    words(spec_lowercase(query))
}

/// How many of the query's terms a chunk's lowercase content contains.
pub open spec fn chunk_score(c: ChunkView, query: Seq<char>) -> nat {
    count_contained(query_terms(query), spec_lowercase(c.content))
}

/// (index, score) of each chunk that matches at least one term, in index order.
pub open spec fn candidates(chunks: Seq<ChunkView>, query: Seq<char>) -> Seq<(nat, nat)>
    decreases chunks.len(),
{
    if chunks.len() == 0 {
        seq![]
    } else {
        let rest = candidates(chunks.drop_last(), query);
        let m = chunk_score(chunks.last(), query);
        if m > 0 {
            rest.push(((chunks.len() - 1) as nat, m))
        } else {
            rest
        }
    }
}

/// `s` with `x` inserted after every element scoring at least as much as `x`
/// at the end of `s` (for a ranking, the place a stable sort by descending
/// score gives it).
pub open spec fn insert_ranked(s: Seq<(nat, nat)>, x: (nat, nat)) -> Seq<(nat, nat)>
    decreases s.len(),
{
    if s.len() == 0 {
        seq![x]
    } else if s.last().1 >= x.1 {
        s.push(x)
    } else {
        insert_ranked(s.drop_last(), x).push(s.last())
    }
}

/// The elements of `s` sorted by descending score, stably.
pub open spec fn ranked(s: Seq<(nat, nat)>) -> Seq<(nat, nat)>
    decreases s.len(),
{
    if s.len() == 0 {
        seq![]
    } else {
        insert_ranked(ranked(s.drop_last()), s.last())
    }
}

/// The (index, score) pairs of a keyword search: the matching chunks by
/// descending score, ties in index order, at most `k` of them.
pub open spec fn search_ranking(chunks: Seq<ChunkView>, query: Seq<char>, k: nat) -> Seq<(nat, nat)> {
    let r = ranked(candidates(chunks, query));
    r.take(if k < r.len() { k as int } else { r.len() as int })
}

/// The chunk views of a sequence of chunks.
pub open spec fn chunk_views(chunks: Seq<Chunk>) -> Seq<ChunkView> {
    chunks.map_values(|c: Chunk| c@)
}

/// `r` is the search hit for chunk `c` with `matched` of `total` terms.
pub open spec fn is_hit(r: SearchResult, c: ChunkView, matched: nat, total: nat) -> bool {
    &&& r.chunk@ == c
    &&& r.matched_terms == matched
    &&& r.query_terms == total
    &&& r.document_path@ == c.document_id
    &&& r.document_title@ == c.document_id
}

/// Bytes an index entry takes: its text's UTF-8 bytes, four per embedding component, one
/// per compressed byte.
pub open spec fn entry_bytes(c: ChunkView) -> nat {
    utf8_len(c.content) + (match c.embedding {
        Some(e) => 4 * e.len(),
        None => 0,
    }) + (match c.tq_embedding {
        Some(t) => t.len(),
        None => 0,
    })
}

/// Bytes of the entries `cs`.
pub open spec fn entries_bytes(cs: Seq<ChunkView>) -> nat
    decreases cs.len(),
{
    if cs.len() == 0 {
        0
    } else {
        entries_bytes(cs.drop_last()) + entry_bytes(cs.last())
    }
}

/// Bytes of the `f32` embeddings of `cs`, four per component.
pub open spec fn fp32_bytes(cs: Seq<ChunkView>) -> nat
    decreases cs.len(),
{
    if cs.len() == 0 {
        0
    } else {
        fp32_bytes(cs.drop_last()) + match cs.last().embedding {
            Some(e) => 4 * e.len(),
            None => 0,
        }
    }
}

/// Bytes of the embeddings of `cs` at `bits` bits per component, rounded up
/// per embedding.
pub open spec fn packed_bytes(cs: Seq<ChunkView>, bits: nat) -> nat
    decreases cs.len(),
{
    if cs.len() == 0 {
        0
    } else {
        packed_bytes(cs.drop_last(), bits) + match cs.last().embedding {
            Some(e) => (e.len() * bits + 7) / 8,
            None => 0,
        }
    }
}

/// An element of a ranking and its position, for the exec search.
fn insert_ranked_exec(ranking: &mut Vec<(usize, usize)>, x: (usize, usize))
    ensures
        pairs(final(ranking)@) == insert_ranked(pairs(old(ranking)@), (x.0 as nat, x.1 as nat)),
{
    let ghost s = pairs(ranking@);
    let ghost xv = (x.0 as nat, x.1 as nat);
    let mut j = ranking.len();
    assert(s.subrange(0, s.len() as int) =~= s);
    assert(s.subrange(s.len() as int, s.len() as int) =~= Seq::<(nat, nat)>::empty());
    assert(insert_ranked(s, xv) =~= insert_ranked(s.subrange(0, s.len() as int), xv) + s.subrange(s.len() as int, s.len() as int));
    while j > 0 && ranking[j - 1].1 < x.1
        invariant
            j <= ranking.len(),
            xv == (x.0 as nat, x.1 as nat),
            s == pairs(ranking@),
            s.len() == ranking.len(),
            insert_ranked(s, xv) == insert_ranked(s.subrange(0, j as int), xv) + s.subrange(
                j as int,
                s.len() as int,
            ),
        decreases j,
    {
        proof {
            let sj = s.subrange(0, j as int);
            assert(s[j - 1] == (ranking@[j - 1].0 as nat, ranking@[j - 1].1 as nat));
            assert(sj.last() == s[j - 1]);
            assert(sj.drop_last() =~= s.subrange(0, j - 1));
            assert(sj.len() > 0);
            assert(ranking@[j - 1].1 < x.1);
            assert(sj.last().1 < xv.1);
            assert(insert_ranked(sj, xv) == insert_ranked(sj.drop_last(), xv).push(sj.last()));
            assert(insert_ranked(sj, xv) == insert_ranked(s.subrange(0, j - 1), xv).push(s[j - 1]));
            assert(insert_ranked(s.subrange(0, j - 1), xv).push(s[j - 1]) + s.subrange(
                j as int,
                s.len() as int,
            ) =~= insert_ranked(s.subrange(0, j - 1), xv) + s.subrange(j - 1, s.len() as int));
        }
        j = j - 1;
    }
    proof {
        let sj = s.subrange(0, j as int);
        if j > 0 {
            assert(s[j - 1] == (ranking@[j - 1].0 as nat, ranking@[j - 1].1 as nat));
            assert(sj.last() == s[j - 1]);
            assert(insert_ranked(sj, xv) == sj.push(xv));
        } else {
            assert(insert_ranked(sj, xv) == seq![xv]);
        }
    }
    ranking.insert(j, x);
    proof {
        assert(pairs(ranking@) =~= s.subrange(0, j as int).push(xv) + s.subrange(
            j as int,
            s.len() as int,
        ));
    }
}

/// The (index, score) pairs of a vector, as naturals.
pub open spec fn pairs(v: Seq<(usize, usize)>) -> Seq<(nat, nat)> {
    v.map_values(|p: (usize, usize)| (p.0 as nat, p.1 as nat))
}

/// How many of `terms` occur in `content`.
fn count_terms(terms: &Vec<Vec<char>>, content: &Vec<char>) -> (n: usize)
    ensures
        n == count_contained(views(terms@), content@),
        n <= terms.len(),
{
    let ghost tv = views(terms@);
    let mut n: usize = 0;
    let mut i: usize = 0;
    assert(tv.subrange(0, 0) =~= Seq::<Seq<char>>::empty());
    while i < terms.len()
        invariant
            i <= terms.len(),
            tv == views(terms@),
            tv.len() == terms.len(),
            n == count_contained(tv.subrange(0, i as int), content@),
            n <= i,
        decreases terms.len() - i,
    {
        let ghost sub = tv.subrange(0, i + 1);
        assert(sub.drop_last() =~= tv.subrange(0, i as int));
        assert(sub.last() == terms@[i as int]@);
        if contains_chars(content, &terms[i]) {
            n = n + 1;
        }
        i = i + 1;
    }
    assert(tv.subrange(0, terms.len() as int) =~= tv);
    n
}

impl VectorIndex {
    pub closed spec fn spec_chunks(&self) -> Seq<ChunkView> {
        chunk_views(self.chunks@)
    }

    pub closed spec fn spec_path(&self) -> Seq<char> {
        self.path@
    }

    pub closed spec fn spec_use_tq(&self) -> bool {
        self.use_tq
    }

    pub closed spec fn spec_tq_bits(&self) -> u8 {
        self.tq_bits
    }

    /// An empty index stored under `path`. (Creating the directory is the
    /// caller's part.)
    pub fn new(path: &str, use_tq: bool, tq_bits: u8) -> (r: Self)
        ensures
            r.spec_chunks() == Seq::<ChunkView>::empty(),
            r.spec_path() == path@,
            r.spec_use_tq() == use_tq,
            r.spec_tq_bits() == tq_bits,
    {
        let r = VectorIndex { chunks: Vec::new(), path: String::from_str(path), use_tq, tq_bits };
        assert(r.spec_chunks() =~= Seq::<ChunkView>::empty());
        r
    }

    /// Adds a copy of `chunk` at the end of the index. Never fails.
    pub fn add_chunk(&mut self, chunk: &Chunk) -> (r: Result<(), String>)
        ensures
            r is Ok,
            final(self).spec_chunks() == old(self).spec_chunks().push(chunk@),
            final(self).spec_path() == old(self).spec_path(),
            final(self).spec_use_tq() == old(self).spec_use_tq(),
            final(self).spec_tq_bits() == old(self).spec_tq_bits(),
    {
        let ghost before = self.spec_chunks();
        self.chunks.push(chunk.duplicate());
        assert(self.spec_chunks() =~= before.push(chunk@));
        Ok(())
    }

    /// The chunks of the index, in insertion order.
    pub fn chunks(&self) -> (r: &Vec<Chunk>)
        ensures
            chunk_views(r@) == self.spec_chunks(),
    {
        &self.chunks
    }

    /// Keyword search: each chunk is scored by how many of the query's
    /// lowercase words its lowercase content contains; chunks scoring zero
    /// are left out; the rest come by descending score, ties in insertion
    /// order, at most `k` of them.
    pub fn search_text(&self, query: &str, k: usize) -> (r: Vec<SearchResult>)
        ensures
            ({
                let ranking = search_ranking(self.spec_chunks(), query@, k as nat);
                &&& r.len() == ranking.len()
                &&& forall|t: int|
                    0 <= t < r.len() ==> is_hit(
                        #[trigger] r@[t],
                        self.spec_chunks()[ranking[t].0 as int],
                        ranking[t].1,
                        query_terms(query@).len(),
                    )
            }),
    {
        let ql = to_lowercase(query);
        let qv = chars_of(ql.as_str());
        let terms = words_of(&qv);
        let ghost cv = self.spec_chunks();
        let mut ranking: Vec<(usize, usize)> = Vec::new();
        let mut i: usize = 0;
        assert(cv.subrange(0, 0) =~= Seq::<ChunkView>::empty());
        while i < self.chunks.len()
            invariant
                i <= self.chunks.len(),
                cv == self.spec_chunks(),
                cv == chunk_views(self.chunks@),
                cv.len() == self.chunks.len(),
                views(terms@) == query_terms(query@),
                pairs(ranking@) == ranked(candidates(cv.subrange(0, i as int), query@)),
            decreases self.chunks.len() - i,
        {
            let lc = to_lowercase(self.chunks[i].content.as_str());
            let lv = chars_of(lc.as_str());
            let m = count_terms(&terms, &lv);
            proof {
                let sub = cv.subrange(0, i + 1);
                assert(sub.drop_last() =~= cv.subrange(0, i as int));
                assert(sub.last() == self.chunks@[i as int]@);
                assert(m == chunk_score(sub.last(), query@));
            }
            let ghost sub = cv.subrange(0, i + 1);
            let ghost prev = candidates(cv.subrange(0, i as int), query@);
            if m > 0 {
                insert_ranked_exec(&mut ranking, (i, m));
                proof {
                    assert(candidates(sub, query@) == prev.push((i as nat, m as nat)));
                    assert(prev.push((i as nat, m as nat)).drop_last() =~= prev);
                }
            } else {
                assert(candidates(sub, query@) == prev);
            }
            i = i + 1;
        }
        assert(cv.subrange(0, self.chunks.len() as int) =~= cv);
        let ghost full = pairs(ranking@);
        let n = if k < ranking.len() {
            k
        } else {
            ranking.len()
        };
        let mut results: Vec<SearchResult> = Vec::new();
        let mut t: usize = 0;
        while t < n
            invariant
                t <= n <= ranking.len(),
                full == pairs(ranking@),
                full == ranked(candidates(cv, query@)),
                cv == self.spec_chunks(),
                cv == chunk_views(self.chunks@),
                cv.len() == self.chunks.len(),
                views(terms@) == query_terms(query@),
                results.len() == t,
                forall|u: int|
                    0 <= u < t ==> is_hit(
                        #[trigger] results@[u],
                        cv[full[u].0 as int],
                        full[u].1,
                        query_terms(query@).len(),
                    ),
            decreases n - t,
        {
            let (idx, m) = ranking[t];
            assert(full[t as int] == (idx as nat, m as nat));
            proof {
                lemma_ranked_indices(cv, query@);
            }
            assert(idx < self.chunks.len());
            let chunk = &self.chunks[idx];
            assert(cv[idx as int] == chunk@);
            let ghost before = results@;
            results.push(
                SearchResult {
                    chunk: chunk.duplicate(),
                    matched_terms: m,
                    query_terms: terms.len(),
                    document_path: chunk.document_id.clone(),
                    document_title: chunk.document_id.clone(),
                },
            );
            assert forall|u: int| 0 <= u < t + 1 implies is_hit(
                #[trigger] results@[u],
                cv[full[u].0 as int],
                full[u].1,
                query_terms(query@).len(),
            ) by {
                if u < t {
                    assert(results@[u] == before[u]);
                }
            }
            t = t + 1;
        }
        results
    }

    /// The number of chunks in the index.
    pub fn len(&self) -> (r: usize)
        ensures
            r == self.spec_chunks().len(),
    {
        self.chunks.len()
    }

    /// Estimated bytes used by the index's entries.
    pub fn memory_usage_bytes(&self) -> (r: usize)
        requires
            entries_bytes(self.spec_chunks()) <= usize::MAX,
        ensures
            r == entries_bytes(self.spec_chunks()),
    {
        let ghost cv = self.spec_chunks();
        let mut total: usize = 0;
        let mut i: usize = 0;
        assert(cv.subrange(0, 0) =~= Seq::<ChunkView>::empty());
        while i < self.chunks.len()
            invariant
                i <= self.chunks.len(),
                cv == self.spec_chunks(),
                cv == chunk_views(self.chunks@),
                cv.len() == self.chunks.len(),
                entries_bytes(cv) <= usize::MAX,
                total == entries_bytes(cv.subrange(0, i as int)),
            decreases self.chunks.len() - i,
        {
            let c = &self.chunks[i];
            proof {
                let sub = cv.subrange(0, i + 1);
                assert(sub.drop_last() =~= cv.subrange(0, i as int));
                assert(sub.last() == c@);
                lemma_entries_bytes_prefix(cv, i + 1);
            }
            let mut e: usize = c.content.as_str().len();
            match &c.embedding {
                Some(v) => {
                    e = e + v.len() * 4;
                },
                None => {},
            }
            match &c.tq_embedding {
                Some(v) => {
                    e = e + v.len();
                },
                None => {},
            }
            total = total + e;
            i = i + 1;
        }
        assert(cv.subrange(0, self.chunks.len() as int) =~= cv);
        total
    }

    /// Bytes of the embeddings as `f32` vectors, and as stored: packed at the
    /// index's bit width, rounded up per embedding, when compression is on,
    /// the same as the first otherwise.
    pub fn compression_stats(&self) -> (r: (usize, usize))
        requires
            fp32_bytes(self.spec_chunks()) <= usize::MAX,
            self.spec_use_tq() ==> packed_bytes(self.spec_chunks(), self.spec_tq_bits() as nat)
                <= usize::MAX,
        ensures
            r.0 == fp32_bytes(self.spec_chunks()),
            r.1 == if self.spec_use_tq() {
                packed_bytes(self.spec_chunks(), self.spec_tq_bits() as nat)
            } else {
                fp32_bytes(self.spec_chunks())
            },
    {
        let ghost cv = self.spec_chunks();
        let mut fp32: usize = 0;
        let mut i: usize = 0;
        assert(cv.subrange(0, 0) =~= Seq::<ChunkView>::empty());
        while i < self.chunks.len()
            invariant
                i <= self.chunks.len(),
                cv == self.spec_chunks(),
                cv == chunk_views(self.chunks@),
                cv.len() == self.chunks.len(),
                fp32_bytes(cv) <= usize::MAX,
                fp32 == fp32_bytes(cv.subrange(0, i as int)),
            decreases self.chunks.len() - i,
        {
            let c = &self.chunks[i];
            proof {
                let sub = cv.subrange(0, i + 1);
                assert(sub.drop_last() =~= cv.subrange(0, i as int));
                assert(sub.last() == c@);
                lemma_fp32_bytes_prefix(cv, i + 1);
            }
            match &c.embedding {
                Some(v) => {
                    fp32 = fp32 + v.len() * 4;
                },
                None => {},
            }
            i = i + 1;
        }
        assert(cv.subrange(0, self.chunks.len() as int) =~= cv);
        if !self.use_tq {
            return (fp32, fp32);
        }
        let bits = self.tq_bits as u128;
        let mut packed: usize = 0;
        let mut i: usize = 0;
        while i < self.chunks.len()
            invariant
                i <= self.chunks.len(),
                cv == self.spec_chunks(),
                cv == chunk_views(self.chunks@),
                cv.len() == self.chunks.len(),
                bits == self.spec_tq_bits(),
                packed_bytes(cv, bits as nat) <= usize::MAX,
                packed == packed_bytes(cv.subrange(0, i as int), bits as nat),
            decreases self.chunks.len() - i,
        {
            let c = &self.chunks[i];
            proof {
                let sub = cv.subrange(0, i + 1);
                assert(sub.drop_last() =~= cv.subrange(0, i as int));
                assert(sub.last() == c@);
                lemma_packed_bytes_prefix(cv, i + 1, bits as nat);
            }
            match &c.embedding {
                Some(v) => {
                    let n = v.len() as u128;
                    assert(n * bits <= 0xffff_ffff_ffff_ffff * 255) by (nonlinear_arith)
                        requires
                            n <= 0xffff_ffff_ffff_ffff,
                            bits <= 255,
                    ;
                    let add = (n * bits + 7) / 8;
                    packed = packed + add as usize;
                },
                None => {},
            }
            i = i + 1;
        }
        assert(cv.subrange(0, self.chunks.len() as int) =~= cv);
        (fp32, packed)
    }
}

/// The indices in a ranking are indices of chunks.
pub proof fn lemma_ranked_indices(cv: Seq<ChunkView>, query: Seq<char>)
    ensures
        forall|t: int|
            0 <= t < ranked(candidates(cv, query)).len() ==> #[trigger] ranked(candidates(cv, query))[t].0
                < cv.len(),
{
    lemma_candidates_indices(cv, query);
    lemma_ranked_members(candidates(cv, query));
}

proof fn lemma_candidates_indices(cv: Seq<ChunkView>, query: Seq<char>)
    ensures
        forall|t: int|
            0 <= t < candidates(cv, query).len() ==> #[trigger] candidates(cv, query)[t].0 < cv.len(),
    decreases cv.len(),
{
    if cv.len() > 0 {
        lemma_candidates_indices(cv.drop_last(), query);
        let rest = candidates(cv.drop_last(), query);
        assert forall|t: int| 0 <= t < candidates(cv, query).len() implies #[trigger] candidates(cv, query)[t].0 < cv.len() by {
            if t < rest.len() {
                assert(candidates(cv, query)[t] == rest[t]);
            }
        }
    }
}

/// Ranking keeps exactly the elements it is given.
pub proof fn lemma_ranked_members(s: Seq<(nat, nat)>)
    ensures
        ranked(s).len() == s.len(),
        forall|t: int| 0 <= t < ranked(s).len() ==> s.contains(#[trigger] ranked(s)[t]),
        forall|t: int| 0 <= t < s.len() ==> ranked(s).contains(#[trigger] s[t]),
    decreases s.len(),
{
    if s.len() > 0 {
        lemma_ranked_members(s.drop_last());
        lemma_insert_members(ranked(s.drop_last()), s.last());
        let r = ranked(s.drop_last());
        assert forall|t: int| 0 <= t < ranked(s).len() implies s.contains(#[trigger] ranked(s)[t]) by {
            let e = ranked(s)[t];
            assert(r.contains(e) || e == s.last());
            if r.contains(e) {
                let u = choose|u: int| 0 <= u < r.len() && r[u] == e;
                assert(s.drop_last().contains(e));
                let w = choose|w: int| 0 <= w < s.drop_last().len() && s.drop_last()[w] == e;
                assert(s[w] == e);
            } else {
                assert(s[s.len() - 1] == e);
            }
        }
        assert forall|t: int| 0 <= t < s.len() implies ranked(s).contains(#[trigger] s[t]) by {
            if t < s.len() - 1 {
                assert(s.drop_last()[t] == s[t]);
                assert(r.contains(s[t]));
            }
        }
    }
}

proof fn lemma_insert_members(s: Seq<(nat, nat)>, x: (nat, nat))
    ensures
        insert_ranked(s, x).len() == s.len() + 1,
        insert_ranked(s, x).contains(x),
        forall|t: int| 0 <= t < s.len() ==> insert_ranked(s, x).contains(#[trigger] s[t]),
        forall|t: int|
            0 <= t < insert_ranked(s, x).len() ==> s.contains(#[trigger] insert_ranked(s, x)[t])
                || insert_ranked(s, x)[t] == x,
    decreases s.len(),
{
    if s.len() == 0 {
        assert(insert_ranked(s, x)[0] == x);
    } else if s.last().1 >= x.1 {
        assert(insert_ranked(s, x)[s.len() as int] == x);
        assert forall|t: int| 0 <= t < s.len() implies insert_ranked(s, x).contains(#[trigger] s[t]) by {
            assert(insert_ranked(s, x)[t] == s[t]);
        }
    } else {
        lemma_insert_members(s.drop_last(), x);
        let r = insert_ranked(s.drop_last(), x);
        assert(insert_ranked(s, x) == r.push(s.last()));
        let w = choose|w: int| 0 <= w < r.len() && r[w] == x;
        assert(insert_ranked(s, x)[w] == x);
        assert forall|t: int| 0 <= t < s.len() implies insert_ranked(s, x).contains(#[trigger] s[t]) by {
            if t == s.len() - 1 {
                assert(insert_ranked(s, x)[r.len() as int] == s[t]);
            } else {
                assert(s.drop_last()[t] == s[t]);
                let v = choose|v: int| 0 <= v < r.len() && r[v] == s[t];
                assert(insert_ranked(s, x)[v] == s[t]);
            }
        }
        assert forall|t: int| 0 <= t < insert_ranked(s, x).len() implies s.contains(
            #[trigger] insert_ranked(s, x)[t],
        ) || insert_ranked(s, x)[t] == x by {
            if t == r.len() {
                assert(s[s.len() - 1] == insert_ranked(s, x)[t]);
            } else {
                assert(insert_ranked(s, x)[t] == r[t]);
                if s.drop_last().contains(r[t]) {
                    let w2 = choose|w2: int| 0 <= w2 < s.drop_last().len() && s.drop_last()[w2] == r[t];
                    assert(s[w2] == r[t]);
                }
            }
        }
    }
}

proof fn lemma_entries_bytes_prefix(cv: Seq<ChunkView>, n: int)
    requires
        0 <= n <= cv.len(),
    ensures
        entries_bytes(cv.subrange(0, n)) <= entries_bytes(cv),
    decreases cv.len() - n,
{
    if n < cv.len() {
        lemma_entries_bytes_prefix(cv, n + 1);
        let sub = cv.subrange(0, n + 1);
        assert(sub.drop_last() =~= cv.subrange(0, n));
    } else {
        assert(cv.subrange(0, n) =~= cv);
    }
}

proof fn lemma_packed_bytes_prefix(cv: Seq<ChunkView>, n: int, bits: nat)
    requires
        0 <= n <= cv.len(),
    ensures
        packed_bytes(cv.subrange(0, n), bits) <= packed_bytes(cv, bits),
    decreases cv.len() - n,
{
    if n < cv.len() {
        lemma_packed_bytes_prefix(cv, n + 1, bits);
        let sub = cv.subrange(0, n + 1);
        assert(sub.drop_last() =~= cv.subrange(0, n));
    } else {
        assert(cv.subrange(0, n) =~= cv);
    }
}

proof fn lemma_fp32_bytes_prefix(cv: Seq<ChunkView>, n: int)
    requires
        0 <= n <= cv.len(),
    ensures
        fp32_bytes(cv.subrange(0, n)) <= fp32_bytes(cv),
    decreases cv.len() - n,
{
    if n < cv.len() {
        lemma_fp32_bytes_prefix(cv, n + 1);
        let sub = cv.subrange(0, n + 1);
        assert(sub.drop_last() =~= cv.subrange(0, n));
    } else {
        assert(cv.subrange(0, n) =~= cv);
    }
}


/// Scores never increase along `s`.
pub open spec fn sorted_by_score(s: Seq<(nat, nat)>) -> bool {
    forall|i: int, j: int| 0 <= i < j < s.len() ==> (#[trigger] s[i]).1 >= (#[trigger] s[j]).1
}

/// Inserting into a ranking keeps it sorted.
proof fn lemma_insert_sorted(s: Seq<(nat, nat)>, x: (nat, nat))
    requires
        sorted_by_score(s),
    ensures
        sorted_by_score(insert_ranked(s, x)),
    decreases s.len(),
{
    if s.len() == 0 {
    } else if s.last().1 >= x.1 {
        let r = s.push(x);
        assert forall|i: int, j: int| 0 <= i < j < r.len() implies (#[trigger] r[i]).1 >= (#[trigger] r[j]).1 by {
            if j == s.len() {
                assert(r[i] == s[i]);
                if i < s.len() - 1 {
                    assert(s[i].1 >= s[s.len() - 1].1);
                }
            } else {
                assert(r[i] == s[i] && r[j] == s[j]);
            }
        }
    } else {
        let init = s.drop_last();
        assert(sorted_by_score(init)) by {
            assert forall|i: int, j: int| 0 <= i < j < init.len() implies (#[trigger] init[i]).1 >= (
            #[trigger] init[j]).1 by {
                assert(init[i] == s[i] && init[j] == s[j]);
            }
        }
        lemma_insert_sorted(init, x);
        lemma_insert_members(init, x);
        let m = insert_ranked(init, x);
        let r = m.push(s.last());
        assert(insert_ranked(s, x) == r);
        assert forall|i: int, j: int| 0 <= i < j < r.len() implies (#[trigger] r[i]).1 >= (#[trigger] r[j]).1 by {
            assert(r[i] == m[i]);
            if j == m.len() {
                assert(r[j] == s.last());
                if init.contains(m[i]) {
                    let w = choose|w: int| 0 <= w < init.len() && init[w] == m[i];
                    assert(s[w] == m[i]);
                    assert(s[w].1 >= s[s.len() - 1].1);
                }
            } else {
                assert(r[j] == m[j]);
            }
        }
    }
}

/// A ranking is sorted by descending score.
pub proof fn lemma_ranked_sorted(s: Seq<(nat, nat)>)
    ensures
        sorted_by_score(ranked(s)),
    decreases s.len(),
{
    if s.len() > 0 {
        lemma_ranked_sorted(s.drop_last());
        lemma_insert_sorted(ranked(s.drop_last()), s.last());
    }
}

/// What a keyword search returns: at most `k` chunks, each an existing chunk
/// that matches at least one term, by descending score.
pub proof fn lemma_search_ranking(chunks: Seq<ChunkView>, query: Seq<char>, k: nat)
    ensures
        search_ranking(chunks, query, k).len() <= k,
        sorted_by_score(search_ranking(chunks, query, k)),
        forall|t: int|
            0 <= t < search_ranking(chunks, query, k).len() ==> (#[trigger] search_ranking(chunks, query, k)[t]).0
                < chunks.len() && search_ranking(chunks, query, k)[t].1 > 0,
{
    let c = candidates(chunks, query);
    let r = ranked(c);
    lemma_ranked_sorted(c);
    lemma_ranked_indices(chunks, query);
    lemma_ranked_members(c);
    lemma_candidates_scores(chunks, query);
    let out = search_ranking(chunks, query, k);
    assert forall|i: int, j: int| 0 <= i < j < out.len() implies (#[trigger] out[i]).1 >= (#[trigger] out[j]).1 by {
        assert(out[i] == r[i] && out[j] == r[j]);
    }
    assert forall|t: int| 0 <= t < out.len() implies (#[trigger] out[t]).0 < chunks.len() && out[t].1 > 0 by {
        assert(out[t] == r[t]);
        assert(c.contains(r[t]));
        let w = choose|w: int| 0 <= w < c.len() && c[w] == r[t];
    }
}

/// The candidates of a search all score above zero.
proof fn lemma_candidates_scores(cv: Seq<ChunkView>, query: Seq<char>)
    ensures
        forall|t: int| 0 <= t < candidates(cv, query).len() ==> #[trigger] candidates(cv, query)[t].1 > 0,
    decreases cv.len(),
{
    if cv.len() > 0 {
        lemma_candidates_scores(cv.drop_last(), query);
        let rest = candidates(cv.drop_last(), query);
        assert forall|t: int| 0 <= t < candidates(cv, query).len() implies #[trigger] candidates(cv, query)[t].1 > 0 by {
            if t < rest.len() {
                assert(candidates(cv, query)[t] == rest[t]);
            }
        }
    }
}


/// Every matching chunk is a candidate, with its score; there are no more
/// candidates than chunks.
proof fn lemma_candidates_complete(cv: Seq<ChunkView>, query: Seq<char>, i: int)
    requires
        0 <= i < cv.len(),
        chunk_score(cv[i], query) > 0,
    ensures
        candidates(cv, query).contains((i as nat, chunk_score(cv[i], query))),
    decreases cv.len(),
{
    let rest = candidates(cv.drop_last(), query);
    if i == cv.len() - 1 {
        assert(candidates(cv, query)[rest.len() as int] == (i as nat, chunk_score(cv[i], query)));
    } else {
        assert(cv.drop_last()[i] == cv[i]);
        lemma_candidates_complete(cv.drop_last(), query, i);
        let w = choose|w: int| 0 <= w < rest.len() && rest[w] == (i as nat, chunk_score(cv[i], query));
        assert(candidates(cv, query)[w] == rest[w]);
    }
}

proof fn lemma_candidates_len(cv: Seq<ChunkView>, query: Seq<char>)
    ensures
        candidates(cv, query).len() <= cv.len(),
    decreases cv.len(),
{
    if cv.len() > 0 {
        lemma_candidates_len(cv.drop_last(), query);
    }
}

/// A search misses nothing that matches: when there is room for every chunk,
/// each chunk that contains a term of the query is among the hits, with the
/// number of terms it contains.
pub proof fn lemma_search_finds(chunks: Seq<ChunkView>, query: Seq<char>, k: nat, i: int)
    requires
        0 <= i < chunks.len(),
        chunk_score(chunks[i], query) > 0,
        k >= chunks.len(),
    ensures
        search_ranking(chunks, query, k).contains((i as nat, chunk_score(chunks[i], query))),
{
    let c = candidates(chunks, query);
    lemma_candidates_complete(chunks, query, i);
    lemma_candidates_len(chunks, query);
    lemma_ranked_members(c);
    let r = ranked(c);
    assert(r.take(r.len() as int) =~= r);
    let w = choose|w: int| 0 <= w < c.len() && c[w] == (i as nat, chunk_score(chunks[i], query));
    assert(r.contains(c[w]));
}

} // verus!
