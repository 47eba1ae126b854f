//! Document chunking: recursive splitting that respects the document's
//! structure (paragraphs, then lines, then sentences, then words), with
//! overlapping offsets.
//! Sizes are UTF-8 byte lengths, as `str::len` counts them.
use vstd::prelude::*;

use crate::rag::{Chunk, ChunkView, Document};
use crate::text::{
    chars_of, copy_range, decimal, lemma_trim_is_subrange, lemma_utf8_len_concat, lemma_utf8_len_subrange,
    push_all, push_decimal, push_str_chars, split, split_chars, split_from, string_from_chars, trim,
    trim_chars, utf8_len, utf8_len_of, views, words, words_from, words_of, find_from,
    lemma_find_from, find_ws_from, lemma_find_ws_from, ends_clean, lemma_trim_of_clean,
    lemma_trim_idempotent, lemma_words_empty, lemma_words_from_cut, lemma_words_from_shift, lemma_words_join,
    lemma_words_single, lemma_words_skip, lemma_words_trim,
};

verus! {

broadcast use vstd::seq::group_seq_axioms;

/// The state of a greedy packing: the chunks made so far and the chunk being filled.
pub type Packing = (Seq<Seq<char>>, Seq<char>);

// ---------------------------------------------------------------------------
// Words
// ---------------------------------------------------------------------------

/// Packing one word: when it does not fit beside the current chunk (with a
/// space), the current chunk is closed; the word then joins the current
/// chunk, after a space unless the chunk is empty.
pub open spec fn words_step(st: Packing, w: Seq<char>, max: nat) -> Packing {
    let closed = if utf8_len(st.1) + utf8_len(w) + 1 > max && st.1.len() > 0 {
        (st.0.push(st.1), Seq::<char>::empty())
    } else {
        st
    };
    (closed.0, if closed.1.len() > 0 {
        closed.1 + seq![' '] + w
    } else {
        w
    })
}

/// Packing the words `ws`, in order.
pub open spec fn words_fold(ws: Seq<Seq<char>>, max: nat) -> Packing
    decreases ws.len(),
{
    if ws.len() == 0 {
        (seq![], seq![])
    } else {
        words_step(words_fold(ws.drop_last(), max), ws.last(), max)
    }
}

/// The chunks of a packing once the current chunk, if any, is closed.
pub open spec fn close(st: Packing) -> Seq<Seq<char>> {
    if st.1.len() > 0 {
        st.0.push(st.1)
    } else {
        st.0
    }
}

/// The chunks of a packing once the current chunk, if any, is closed trimmed.
pub open spec fn close_trimmed(st: Packing) -> Seq<Seq<char>> {
    if st.1.len() > 0 {
        st.0.push(trim(st.1))
    } else {
        st.0
    }
}

/// Chunks of at most `max` bytes made of the words of `text` joined by single
/// spaces (a word longer than `max` is a chunk of its own).
pub open spec fn split_by_words_spec(text: Seq<char>, max: nat) -> Seq<Seq<char>> {
    close(words_fold(words(text), max))
}

// ---------------------------------------------------------------------------
// Lines and paragraphs
// ---------------------------------------------------------------------------

/// Packing one piece (a line or a paragraph) with separator `sep`: when it
/// does not fit beside the current chunk, the current chunk is closed
/// trimmed, and the piece starts the next chunk, or, when it is itself too
/// long, is split by `finer` into chunks of its own.
pub open spec fn piece_step(
    st: Packing,
    piece: Seq<char>,
    sep: Seq<char>,
    max: nat,
    finer: Seq<Seq<char>>,
) -> Packing {
    if utf8_len(st.1) + utf8_len(piece) + utf8_len(sep) > max {
        let chunks = if st.1.len() > 0 {
            st.0.push(trim(st.1))
        } else {
            st.0
        };
        if utf8_len(piece) > max {
            (chunks + finer, seq![])
        } else {
            (chunks, piece)
        }
    } else {
        (st.0, if st.1.len() > 0 {
            st.1 + sep + piece
        } else {
            piece
        })
    }
}

// ---------------------------------------------------------------------------
// Sentences
// ---------------------------------------------------------------------------

/// Whether a sentence ends at index `i` of `s`: a full stop, exclamation or
/// question mark followed by white space.
pub open spec fn is_sentence_end(s: Seq<char>, i: int) -> bool {
    &&& 0 <= i
    &&& i + 1 < s.len()
    &&& (s[i] == '.' || s[i] == '!' || s[i] == '?')
    &&& crate::text::white_space(s[i + 1])
}

/// The first index at or after `from` where a sentence ends.
pub open spec fn sentence_end_from(s: Seq<char>, from: int) -> Option<int>
    decreases s.len() - from,
{
    if from < 0 || from + 1 >= s.len() {
        None
    } else if is_sentence_end(s, from) {
        Some(from)
    } else {
        sentence_end_from(s, from + 1)
    }
}

/// What `sentence_end_from` finds is the first sentence end at or after `from`.
pub proof fn lemma_sentence_end_from(s: Seq<char>, from: int)
    ensures
        sentence_end_from(s, from) matches Some(i) ==> from <= i && is_sentence_end(s, i) && forall|k: int|
            from <= k < i ==> !is_sentence_end(s, k),
        sentence_end_from(s, from) is None && from >= 0 ==> forall|k: int| from <= k ==> !is_sentence_end(s, k),
    decreases s.len() - from,
{
    if from < 0 || from + 1 >= s.len() {
    } else if is_sentence_end(s, from) {
    } else {
        lemma_sentence_end_from(s, from + 1);
    }
}

/// The sentences of `s[from..]`: each runs up to and including its closing
/// mark; the white space character after the mark separates it from the next.
pub open spec fn sentences_from(s: Seq<char>, from: int) -> Seq<Seq<char>>
    decreases s.len() - from,
    when 0 <= from <= s.len()
{
    match sentence_end_from(s, from) {
        None => seq![s.subrange(from, s.len() as int)],
        Some(i) => {
            proof {
                lemma_sentence_end_from(s, from);
            }
            seq![s.subrange(from, i + 1)] + sentences_from(s, i + 2)
        },
    }
}

/// The sentences of `s`.
pub open spec fn sentences(s: Seq<char>) -> Seq<Seq<char>> {
    sentences_from(s, 0)
}

/// Packing the sentences `ss`, in order, separated by a space; a sentence too
/// long is split by words.
pub open spec fn sentences_fold(ss: Seq<Seq<char>>, max: nat) -> Packing
    decreases ss.len(),
{
    if ss.len() == 0 {
        (seq![], seq![])
    } else {
        piece_step(
            sentences_fold(ss.drop_last(), max),
            ss.last(),
            seq![' '],
            max,
            split_by_words_spec(ss.last(), max),
        )
    }
}

/// Chunks of `text` made of whole sentences where they fit.
pub open spec fn split_by_sentences_spec(text: Seq<char>, max: nat) -> Seq<Seq<char>> {
    close_trimmed(sentences_fold(sentences(text), max))
}

/// Packing the lines `ls`, in order; a line too long is split by sentences.
pub open spec fn lines_fold(ls: Seq<Seq<char>>, max: nat) -> Packing
    decreases ls.len(),
{
    if ls.len() == 0 {
        (seq![], seq![])
    } else {
        piece_step(
            lines_fold(ls.drop_last(), max),
            ls.last(),
            seq!['\n'],
            max,
            split_by_sentences_spec(ls.last(), max),
        )
    }
}

/// Chunks of `text` made of whole lines where they fit.
pub open spec fn split_by_lines_spec(text: Seq<char>, max: nat) -> Seq<Seq<char>> {
    close_trimmed(lines_fold(split(text, seq!['\n']), max))
}

/// Packing the paragraphs `ps`, in order; a paragraph too long is split by lines.
pub open spec fn paragraphs_fold(ps: Seq<Seq<char>>, max: nat) -> Packing
    decreases ps.len(),
{
    if ps.len() == 0 {
        (seq![], seq![])
    } else {
        piece_step(
            paragraphs_fold(ps.drop_last(), max),
            ps.last(),
            seq!['\n', '\n'],
            max,
            split_by_lines_spec(ps.last(), max),
        )
    }
}

/// The non-empty members of `s`, in order.
pub open spec fn non_empty(s: Seq<Seq<char>>) -> Seq<Seq<char>>
    decreases s.len(),
{
    if s.len() == 0 {
        seq![]
    } else if s.last().len() > 0 {
        non_empty(s.drop_last()).push(s.last())
    } else {
        non_empty(s.drop_last())
    }
}

/// The chunks of `text` for chunk size `max`: the text itself when it fits,
/// otherwise whole paragraphs where they fit, else lines, else sentences,
/// else words.
pub open spec fn split_by_structure_spec(text: Seq<char>, max: nat) -> Seq<Seq<char>> {
    if utf8_len(text) <= max {
        seq![text]
    } else {
        non_empty(close_trimmed(paragraphs_fold(split(text, seq!['\n', '\n']), max)))
    }
}

// ---------------------------------------------------------------------------
// Lengths of the pieces
// ---------------------------------------------------------------------------

/// Each piece of a split is a piece of the text.
pub proof fn lemma_split_pieces_fit(s: Seq<char>, pat: Seq<char>, from: int)
    requires
        pat.len() > 0,
        0 <= from <= s.len(),
    ensures
        forall|k: int|
            0 <= k < split_from(s, pat, from).len() ==> utf8_len(#[trigger] split_from(s, pat, from)[k])
                <= utf8_len(s),
    decreases s.len() - from,
{
    lemma_find_from(s, pat, from);
    match find_from(s, pat, from) {
        None => {
            lemma_utf8_len_subrange(s, from, s.len() as int);
        },
        Some(i) => {
            lemma_utf8_len_subrange(s, from, i);
            lemma_split_pieces_fit(s, pat, i + pat.len());
            let rest = split_from(s, pat, i + pat.len());
            assert forall|k: int| 0 <= k < split_from(s, pat, from).len() implies utf8_len(
                #[trigger] split_from(s, pat, from)[k],
            ) <= utf8_len(s) by {
                if k > 0 {
                    assert(split_from(s, pat, from)[k] == rest[k - 1]);
                }
            }
        },
    }
}

/// Each word of a text is a piece of the text.
pub proof fn lemma_words_fit(s: Seq<char>, from: int)
    requires
        0 <= from <= s.len(),
    ensures
        forall|k: int|
            0 <= k < words_from(s, from).len() ==> utf8_len(#[trigger] words_from(s, from)[k])
                <= utf8_len(s),
    decreases s.len() - from,
{
    lemma_find_ws_from(s, from);
    match find_ws_from(s, from) {
        None => {
            if from < s.len() {
                lemma_utf8_len_subrange(s, from, s.len() as int);
            }
        },
        Some(i) => {
            lemma_utf8_len_subrange(s, from, i);
            lemma_words_fit(s, i + 1);
            let head = if from < i {
                seq![s.subrange(from, i)]
            } else {
                Seq::<Seq<char>>::empty()
            };
            let rest = words_from(s, i + 1);
            assert(words_from(s, from) == head + rest);
            assert forall|k: int| 0 <= k < words_from(s, from).len() implies utf8_len(
                #[trigger] words_from(s, from)[k],
            ) <= utf8_len(s) by {
                if k >= head.len() {
                    assert(words_from(s, from)[k] == rest[k - head.len()]);
                }
            }
        },
    }
}

/// Byte length of `a + sep + b`.
proof fn lemma_join_len(a: Seq<char>, sep: Seq<char>, b: Seq<char>)
    ensures
        utf8_len(a + sep + b) == utf8_len(a) + utf8_len(sep) + utf8_len(b),
{
    lemma_utf8_len_concat(a, sep);
    lemma_utf8_len_concat(a + sep, b);
}

// ---------------------------------------------------------------------------
// What the chunks are
// ---------------------------------------------------------------------------

/// Whether `s` holds white space.
pub open spec fn has_white_space(s: Seq<char>) -> bool {
    exists|i: int| 0 <= i < s.len() && crate::text::white_space(#[trigger] s[i])
}

/// A chunk keeps to the size: at most `max` bytes, or a single word that is
/// longer than that by itself.
pub open spec fn keeps_size(c: Seq<char>, max: nat) -> bool {
    utf8_len(c) <= max || !has_white_space(c)
}

/// Every chunk of `cs` keeps to the size.
pub open spec fn all_keep_size(cs: Seq<Seq<char>>, max: nat) -> bool {
    forall|k: int| 0 <= k < cs.len() ==> keeps_size(#[trigger] cs[k], max)
}

/// The words of a text are not empty and hold no white space.
proof fn lemma_words_no_white_space(s: Seq<char>, from: int)
    requires
        0 <= from <= s.len(),
    ensures
        forall|k: int|
            0 <= k < words_from(s, from).len() ==> !has_white_space(#[trigger] words_from(s, from)[k])
                && words_from(s, from)[k].len() > 0,
    decreases s.len() - from,
{
    lemma_find_ws_from(s, from);
    match find_ws_from(s, from) {
        None => {
            if from < s.len() {
                let w = s.subrange(from, s.len() as int);
                assert(!has_white_space(w)) by {
                    assert forall|i: int| 0 <= i < w.len() implies !crate::text::white_space(#[trigger] w[i]) by {
                        assert(w[i] == s[from + i]);
                    }
                }
            }
        },
        Some(i) => {
            lemma_words_no_white_space(s, i + 1);
            let head = if from < i {
                seq![s.subrange(from, i)]
            } else {
                Seq::<Seq<char>>::empty()
            };
            let rest = words_from(s, i + 1);
            assert(words_from(s, from) == head + rest);
            if from < i {
                let w = s.subrange(from, i);
                assert(!has_white_space(w)) by {
                    assert forall|j: int| 0 <= j < w.len() implies !crate::text::white_space(#[trigger] w[j]) by {
                        assert(w[j] == s[from + j]);
                    }
                }
            }
            assert forall|k: int| 0 <= k < words_from(s, from).len() implies !has_white_space(
                #[trigger] words_from(s, from)[k],
            ) && words_from(s, from)[k].len() > 0 by {
                if k >= head.len() {
                    assert(words_from(s, from)[k] == rest[k - head.len()]);
                }
            }
        },
    }
}

/// Packing words keeps every chunk to the size, and the chunk being filled too.
proof fn lemma_words_fold_keeps_size(ws: Seq<Seq<char>>, max: nat)
    requires
        forall|k: int| 0 <= k < ws.len() ==> !has_white_space(#[trigger] ws[k]),
    ensures
        all_keep_size(words_fold(ws, max).0, max),
        keeps_size(words_fold(ws, max).1, max),
    decreases ws.len(),
{
    if ws.len() > 0 {
        let init = ws.drop_last();
        assert forall|k: int| 0 <= k < init.len() implies !has_white_space(#[trigger] init[k]) by {
            assert(init[k] == ws[k]);
        }
        lemma_words_fold_keeps_size(init, max);
        let st = words_fold(init, max);
        let w = ws.last();
        assert(!has_white_space(w));
        let closed = if utf8_len(st.1) + utf8_len(w) + 1 > max && st.1.len() > 0 {
            (st.0.push(st.1), Seq::<char>::empty())
        } else {
            st
        };
        assert(all_keep_size(closed.0, max)) by {
            assert forall|k: int| 0 <= k < closed.0.len() implies keeps_size(#[trigger] closed.0[k], max) by {
                if k < st.0.len() {
                    assert(closed.0[k] == st.0[k]);
                }
            }
        }
        if closed.1.len() > 0 {
            crate::text::lemma_utf8_len_single(' ');
            lemma_join_len(closed.1, seq![' '], w);
        }
    }
}

/// Trimming never lengthens.
proof fn lemma_trim_len(s: Seq<char>)
    ensures
        utf8_len(trim(s)) <= utf8_len(s),
{
    lemma_trim_is_subrange(s);
    let i = choose|i: int, j: int| 0 <= i <= j <= s.len() && trim(s) == s.subrange(i, j);
    let (a, b) = i;
    lemma_utf8_len_subrange(s, a, b);
}

/// One packing step keeps the chunks to the size and the chunk being filled
/// within it, when the finer chunks keep to the size.
proof fn lemma_piece_step_keeps_size(st: Packing, piece: Seq<char>, sep: Seq<char>, max: nat, finer: Seq<Seq<char>>)
    requires
        all_keep_size(st.0, max),
        utf8_len(st.1) <= max,
        all_keep_size(finer, max),
    ensures
        all_keep_size(piece_step(st, piece, sep, max, finer).0, max),
        utf8_len(piece_step(st, piece, sep, max, finer).1) <= max,
{
    let chunks = if st.1.len() > 0 {
        st.0.push(trim(st.1))
    } else {
        st.0
    };
    lemma_trim_len(st.1);
    assert(all_keep_size(chunks, max)) by {
        assert forall|k: int| 0 <= k < chunks.len() implies keeps_size(#[trigger] chunks[k], max) by {
            if k < st.0.len() {
                assert(chunks[k] == st.0[k]);
            }
        }
    }
    let more = chunks + finer;
    assert(all_keep_size(more, max)) by {
        assert forall|k: int| 0 <= k < more.len() implies keeps_size(#[trigger] more[k], max) by {
            if k < chunks.len() {
                assert(more[k] == chunks[k]);
            } else {
                assert(more[k] == finer[k - chunks.len()]);
            }
        }
    }
    lemma_join_len(st.1, sep, piece);
}

/// Packing lines keeps every chunk to the size.
proof fn lemma_lines_fold_keeps_size(ls: Seq<Seq<char>>, max: nat)
    ensures
        all_keep_size(lines_fold(ls, max).0, max),
        utf8_len(lines_fold(ls, max).1) <= max,
    decreases ls.len(),
{
    if ls.len() > 0 {
        lemma_lines_fold_keeps_size(ls.drop_last(), max);
        lemma_sentences_keep_size(ls.last(), max);
        lemma_piece_step_keeps_size(
            lines_fold(ls.drop_last(), max),
            ls.last(),
            seq!['\n'],
            max,
            split_by_sentences_spec(ls.last(), max),
        );
    }
}

/// Packing sentences keeps every chunk to the size.
proof fn lemma_sentences_fold_keeps_size(ss: Seq<Seq<char>>, max: nat)
    ensures
        all_keep_size(sentences_fold(ss, max).0, max),
        utf8_len(sentences_fold(ss, max).1) <= max,
    decreases ss.len(),
{
    if ss.len() > 0 {
        lemma_sentences_fold_keeps_size(ss.drop_last(), max);
        lemma_words_keep_size(ss.last(), max);
        lemma_piece_step_keeps_size(
            sentences_fold(ss.drop_last(), max),
            ss.last(),
            seq![' '],
            max,
            split_by_words_spec(ss.last(), max),
        );
    }
}

/// Chunks made of sentences keep to the size.
pub proof fn lemma_sentences_keep_size(text: Seq<char>, max: nat)
    ensures
        all_keep_size(split_by_sentences_spec(text, max), max),
{
    let ss = sentences(text);
    lemma_sentences_fold_keeps_size(ss, max);
    let st = sentences_fold(ss, max);
    lemma_trim_len(st.1);
    let cs = close_trimmed(st);
    assert forall|k: int| 0 <= k < cs.len() implies keeps_size(#[trigger] cs[k], max) by {
        if k < st.0.len() {
            assert(cs[k] == st.0[k]);
        }
    }
}

/// Chunks made of words keep to the size.
pub proof fn lemma_words_keep_size(text: Seq<char>, max: nat)
    ensures
        all_keep_size(split_by_words_spec(text, max), max),
{
    lemma_words_no_white_space(text, 0);
    lemma_words_fold_keeps_size(words(text), max);
    let st = words_fold(words(text), max);
    let cs = close(st);
    assert forall|k: int| 0 <= k < cs.len() implies keeps_size(#[trigger] cs[k], max) by {
        if k < st.0.len() {
            assert(cs[k] == st.0[k]);
        }
    }
}

/// Chunks made of lines keep to the size.
pub proof fn lemma_lines_keep_size(text: Seq<char>, max: nat)
    ensures
        all_keep_size(split_by_lines_spec(text, max), max),
{
    let ls = split(text, seq!['\n']);
    lemma_lines_fold_keeps_size(ls, max);
    let st = lines_fold(ls, max);
    lemma_trim_len(st.1);
    let cs = close_trimmed(st);
    assert forall|k: int| 0 <= k < cs.len() implies keeps_size(#[trigger] cs[k], max) by {
        if k < st.0.len() {
            assert(cs[k] == st.0[k]);
        }
    }
}

/// Packing paragraphs keeps every chunk to the size.
proof fn lemma_paragraphs_fold_keeps_size(ps: Seq<Seq<char>>, max: nat)
    ensures
        all_keep_size(paragraphs_fold(ps, max).0, max),
        utf8_len(paragraphs_fold(ps, max).1) <= max,
    decreases ps.len(),
{
    if ps.len() > 0 {
        lemma_paragraphs_fold_keeps_size(ps.drop_last(), max);
        lemma_lines_keep_size(ps.last(), max);
        lemma_piece_step_keeps_size(
            paragraphs_fold(ps.drop_last(), max),
            ps.last(),
            seq!['\n', '\n'],
            max,
            split_by_lines_spec(ps.last(), max),
        );
    }
}

/// Dropping empty chunks keeps what holds of every chunk, and leaves none empty.
proof fn lemma_non_empty(cs: Seq<Seq<char>>, max: nat)
    ensures
        all_keep_size(cs, max) ==> all_keep_size(non_empty(cs), max),
        forall|k: int| 0 <= k < non_empty(cs).len() ==> (#[trigger] non_empty(cs)[k]).len() > 0,
    decreases cs.len(),
{
    if cs.len() > 0 {
        let init = cs.drop_last();
        lemma_non_empty(init, max);
        if all_keep_size(cs, max) {
            assert forall|k: int| 0 <= k < init.len() implies keeps_size(#[trigger] init[k], max) by {
                assert(init[k] == cs[k]);
            }
        }
        let ne = non_empty(init);
        if cs.last().len() > 0 {
            assert forall|k: int| 0 <= k < non_empty(cs).len() implies (#[trigger] non_empty(cs)[k]).len() > 0 by {
                if k < ne.len() {
                    assert(non_empty(cs)[k] == ne[k]);
                }
            }
            if all_keep_size(cs, max) {
                assert forall|k: int| 0 <= k < non_empty(cs).len() implies keeps_size(#[trigger] non_empty(cs)[k], max) by {
                    if k < ne.len() {
                        assert(non_empty(cs)[k] == ne[k]);
                    }
                }
            }
        }
    }
}

/// Structure-aware chunking keeps to the chunk size: every chunk is at most
/// `max` bytes long, unless it is a single word that is longer by itself;
/// and, for a text that is not empty, no chunk is empty.
pub proof fn lemma_chunks_keep_size(text: Seq<char>, max: nat)
    ensures
        all_keep_size(split_by_structure_spec(text, max), max),
        text.len() > 0 ==> forall|k: int|
            0 <= k < split_by_structure_spec(text, max).len() ==> (#[trigger] split_by_structure_spec(
                text,
                max,
            )[k]).len() > 0,
{
    if utf8_len(text) > max {
        let ps = split(text, seq!['\n', '\n']);
        lemma_paragraphs_fold_keeps_size(ps, max);
        let st = paragraphs_fold(ps, max);
        lemma_trim_len(st.1);
        let cs = close_trimmed(st);
        assert forall|k: int| 0 <= k < cs.len() implies keeps_size(#[trigger] cs[k], max) by {
            if k < st.0.len() {
                assert(cs[k] == st.0[k]);
            }
        }
        lemma_non_empty(cs, max);
    } else {
        let cs = seq![text];
        assert(cs[0] == text);
    }
}

// ---------------------------------------------------------------------------
// Chunks are trimmed
// ---------------------------------------------------------------------------

/// Every member of `cs` is its own trim.
pub open spec fn all_trimmed(cs: Seq<Seq<char>>) -> bool {
    forall|k: int| 0 <= k < cs.len() ==> trim(#[trigger] cs[k]) == cs[k]
}

/// Packing words makes chunks that neither start nor end with white space.
proof fn lemma_words_fold_clean(ws: Seq<Seq<char>>, max: nat)
    requires
        forall|k: int| 0 <= k < ws.len() ==> !has_white_space(#[trigger] ws[k]) && ws[k].len() > 0,
    ensures
        forall|k: int| 0 <= k < words_fold(ws, max).0.len() ==> ends_clean(#[trigger] words_fold(ws, max).0[k]),
        words_fold(ws, max).1.len() > 0 ==> ends_clean(words_fold(ws, max).1),
    decreases ws.len(),
{
    if ws.len() > 0 {
        let init = ws.drop_last();
        assert forall|k: int| 0 <= k < init.len() implies !has_white_space(#[trigger] init[k]) && init[k].len() > 0 by {
            assert(init[k] == ws[k]);
        }
        lemma_words_fold_clean(init, max);
        let st = words_fold(init, max);
        let w = ws.last();
        assert(!has_white_space(w) && w.len() > 0) by {
            assert(w == ws[ws.len() - 1]);
        }
        assert(!crate::text::white_space(w[0]));
        assert(!crate::text::white_space(w[w.len() - 1]));
        let closed = if utf8_len(st.1) + utf8_len(w) + 1 > max && st.1.len() > 0 {
            (st.0.push(st.1), Seq::<char>::empty())
        } else {
            st
        };
        assert forall|k: int| 0 <= k < closed.0.len() implies ends_clean(#[trigger] closed.0[k]) by {
            if k < st.0.len() {
                assert(closed.0[k] == st.0[k]);
            }
        }
        if closed.1.len() > 0 {
            let c = closed.1 + seq![' '] + w;
            assert(c[0] == closed.1[0]);
            assert(c.last() == w.last());
        }
    }
}

/// Chunks made of words are trimmed.
proof fn lemma_words_trimmed(text: Seq<char>, max: nat)
    ensures
        all_trimmed(split_by_words_spec(text, max)),
{
    lemma_words_no_white_space(text, 0);
    lemma_words_fold_clean(words(text), max);
    let st = words_fold(words(text), max);
    let cs = close(st);
    assert forall|k: int| 0 <= k < cs.len() implies trim(#[trigger] cs[k]) == cs[k] by {
        if k < st.0.len() {
            assert(cs[k] == st.0[k]);
        }
        lemma_trim_of_clean(cs[k]);
    }
}

/// One packing step adds only trimmed chunks, when the finer chunks are trimmed.
proof fn lemma_piece_step_trimmed(st: Packing, piece: Seq<char>, sep: Seq<char>, max: nat, finer: Seq<Seq<char>>)
    requires
        all_trimmed(st.0),
        all_trimmed(finer),
    ensures
        all_trimmed(piece_step(st, piece, sep, max, finer).0),
{
    lemma_trim_idempotent(st.1);
    let chunks = if st.1.len() > 0 {
        st.0.push(trim(st.1))
    } else {
        st.0
    };
    assert(all_trimmed(chunks)) by {
        assert forall|k: int| 0 <= k < chunks.len() implies trim(#[trigger] chunks[k]) == chunks[k] by {
            if k < st.0.len() {
                assert(chunks[k] == st.0[k]);
            }
        }
    }
    let more = chunks + finer;
    assert(all_trimmed(more)) by {
        assert forall|k: int| 0 <= k < more.len() implies trim(#[trigger] more[k]) == more[k] by {
            if k < chunks.len() {
                assert(more[k] == chunks[k]);
            } else {
                assert(more[k] == finer[k - chunks.len()]);
            }
        }
    }
}

/// Closing a packing trimmed adds a trimmed chunk.
proof fn lemma_close_trimmed(st: Packing)
    requires
        all_trimmed(st.0),
    ensures
        all_trimmed(close_trimmed(st)),
{
    lemma_trim_idempotent(st.1);
    let cs = close_trimmed(st);
    assert forall|k: int| 0 <= k < cs.len() implies trim(#[trigger] cs[k]) == cs[k] by {
        if k < st.0.len() {
            assert(cs[k] == st.0[k]);
        }
    }
}

proof fn lemma_sentences_fold_trimmed(ss: Seq<Seq<char>>, max: nat)
    ensures
        all_trimmed(sentences_fold(ss, max).0),
    decreases ss.len(),
{
    if ss.len() > 0 {
        lemma_sentences_fold_trimmed(ss.drop_last(), max);
        lemma_words_trimmed(ss.last(), max);
        lemma_piece_step_trimmed(
            sentences_fold(ss.drop_last(), max),
            ss.last(),
            seq![' '],
            max,
            split_by_words_spec(ss.last(), max),
        );
    }
}

/// Chunks made of sentences are trimmed.
proof fn lemma_sentences_trimmed(text: Seq<char>, max: nat)
    ensures
        all_trimmed(split_by_sentences_spec(text, max)),
{
    lemma_sentences_fold_trimmed(sentences(text), max);
    lemma_close_trimmed(sentences_fold(sentences(text), max));
}

proof fn lemma_lines_fold_trimmed(ls: Seq<Seq<char>>, max: nat)
    ensures
        all_trimmed(lines_fold(ls, max).0),
    decreases ls.len(),
{
    if ls.len() > 0 {
        lemma_lines_fold_trimmed(ls.drop_last(), max);
        lemma_sentences_trimmed(ls.last(), max);
        lemma_piece_step_trimmed(
            lines_fold(ls.drop_last(), max),
            ls.last(),
            seq!['\n'],
            max,
            split_by_sentences_spec(ls.last(), max),
        );
    }
}

/// Chunks made of lines are trimmed.
proof fn lemma_lines_trimmed(text: Seq<char>, max: nat)
    ensures
        all_trimmed(split_by_lines_spec(text, max)),
{
    let ls = split(text, seq!['\n']);
    lemma_lines_fold_trimmed(ls, max);
    lemma_close_trimmed(lines_fold(ls, max));
}

proof fn lemma_paragraphs_fold_trimmed(ps: Seq<Seq<char>>, max: nat)
    ensures
        all_trimmed(paragraphs_fold(ps, max).0),
    decreases ps.len(),
{
    if ps.len() > 0 {
        lemma_paragraphs_fold_trimmed(ps.drop_last(), max);
        lemma_lines_trimmed(ps.last(), max);
        lemma_piece_step_trimmed(
            paragraphs_fold(ps.drop_last(), max),
            ps.last(),
            seq!['\n', '\n'],
            max,
            split_by_lines_spec(ps.last(), max),
        );
    }
}

proof fn lemma_non_empty_trimmed(cs: Seq<Seq<char>>)
    requires
        all_trimmed(cs),
    ensures
        all_trimmed(non_empty(cs)),
    decreases cs.len(),
{
    if cs.len() > 0 {
        let init = cs.drop_last();
        assert forall|k: int| 0 <= k < init.len() implies trim(#[trigger] init[k]) == init[k] by {
            assert(init[k] == cs[k]);
        }
        lemma_non_empty_trimmed(init);
        let ne = non_empty(init);
        if cs.last().len() > 0 {
            assert(trim(cs[cs.len() - 1]) == cs[cs.len() - 1]);
            assert forall|k: int| 0 <= k < non_empty(cs).len() implies trim(#[trigger] non_empty(cs)[k])
                == non_empty(cs)[k] by {
                if k < ne.len() {
                    assert(non_empty(cs)[k] == ne[k]);
                }
            }
        }
    }
}

/// Every chunk of a text longer than the chunk size is trimmed: it neither
/// starts nor ends with white space. (A text that fits is its single chunk
/// as it stands.)
pub proof fn lemma_chunks_trimmed(text: Seq<char>, max: nat)
    requires
        utf8_len(text) > max,
    ensures
        all_trimmed(split_by_structure_spec(text, max)),
{
    let ps = split(text, seq!['\n', '\n']);
    lemma_paragraphs_fold_trimmed(ps, max);
    lemma_close_trimmed(paragraphs_fold(ps, max));
    lemma_non_empty_trimmed(close_trimmed(paragraphs_fold(ps, max)));
}

// ---------------------------------------------------------------------------
// Chunks keep the words
// ---------------------------------------------------------------------------

/// The words of each member of `cs`, in order, one after the other.
pub open spec fn flat_words(cs: Seq<Seq<char>>) -> Seq<Seq<char>>
    decreases cs.len(),
{
    if cs.len() == 0 {
        seq![]
    } else {
        flat_words(cs.drop_last()) + words(cs.last())
    }
}

proof fn lemma_flat_words_concat(a: Seq<Seq<char>>, b: Seq<Seq<char>>)
    ensures
        flat_words(a + b) == flat_words(a) + flat_words(b),
    decreases b.len(),
{
    if b.len() == 0 {
        assert(a + b =~= a);
        assert(flat_words(a) + flat_words(b) =~= flat_words(a));
    } else {
        lemma_flat_words_concat(a, b.drop_last());
        assert((a + b).drop_last() =~= a + b.drop_last());
        assert((a + b).last() == b.last());
        assert(flat_words(a + b) =~= flat_words(a) + flat_words(b));
    }
}

proof fn lemma_flat_words_push(a: Seq<Seq<char>>, c: Seq<char>)
    ensures
        flat_words(a.push(c)) == flat_words(a) + words(c),
{
    assert(a.push(c).drop_last() =~= a);
}

proof fn lemma_flat_words_single(c: Seq<char>)
    ensures
        flat_words(seq![c]) == words(c),
{
    lemma_flat_words_push(Seq::<Seq<char>>::empty(), c);
    assert(seq![c] =~= Seq::<Seq<char>>::empty().push(c));
    assert(Seq::<Seq<char>>::empty() + words(c) =~= words(c));
}

/// When the separator is white space, the pieces of a split hold the words
/// of the text, in order.
proof fn lemma_split_words(s: Seq<char>, pat: Seq<char>, from: int)
    requires
        pat.len() > 0,
        0 <= from <= s.len(),
        forall|j: int| 0 <= j < pat.len() ==> crate::text::white_space(#[trigger] pat[j]),
    ensures
        flat_words(split_from(s, pat, from)) == words_from(s, from),
    decreases s.len() - from,
{
    lemma_find_from(s, pat, from);
    match find_from(s, pat, from) {
        None => {
            lemma_flat_words_single(s.subrange(from, s.len() as int));
            lemma_words_from_shift(s, from, 0);
        },
        Some(i) => {
            let n = pat.len() as int;
            assert(s.subrange(i, i + n) == pat);
            assert forall|k: int| i <= k < i + n implies crate::text::white_space(#[trigger] s[k]) by {
                assert(s[k] == s.subrange(i, i + n)[k - i]);
            }
            lemma_words_from_cut(s, from, i);
            let p = s.subrange(0, i);
            lemma_words_from_shift(p, from, 0);
            assert(p.subrange(from, i) =~= s.subrange(from, i));
            lemma_words_skip(s, i + 1, i + n);
            lemma_split_words(s, pat, i + n);
            lemma_flat_words_concat(seq![s.subrange(from, i)], split_from(s, pat, i + n));
            lemma_flat_words_single(s.subrange(from, i));
        },
    }
}

/// The sentences of a text hold its words, in order.
proof fn lemma_sentences_words(s: Seq<char>, from: int)
    requires
        0 <= from <= s.len(),
    ensures
        flat_words(sentences_from(s, from)) == words_from(s, from),
    decreases s.len() - from,
{
    lemma_sentence_end_from(s, from);
    match sentence_end_from(s, from) {
        None => {
            lemma_flat_words_single(s.subrange(from, s.len() as int));
            lemma_words_from_shift(s, from, 0);
        },
        Some(i) => {
            lemma_words_from_cut(s, from, i + 1);
            let p = s.subrange(0, i + 1);
            lemma_words_from_shift(p, from, 0);
            assert(p.subrange(from, i + 1) =~= s.subrange(from, i + 1));
            lemma_sentences_words(s, i + 2);
            lemma_flat_words_concat(seq![s.subrange(from, i + 1)], sentences_from(s, i + 2));
            lemma_flat_words_single(s.subrange(from, i + 1));
        },
    }
}

/// Packing words keeps them, in order.
proof fn lemma_words_fold_words(ws: Seq<Seq<char>>, max: nat)
    requires
        forall|k: int| 0 <= k < ws.len() ==> !has_white_space(#[trigger] ws[k]) && ws[k].len() > 0,
    ensures
        flat_words(words_fold(ws, max).0) + words(words_fold(ws, max).1) == ws,
    decreases ws.len(),
{
    lemma_words_empty();
    if ws.len() == 0 {
        assert(flat_words(words_fold(ws, max).0) + words(words_fold(ws, max).1) =~= ws);
    } else {
        let init = ws.drop_last();
        assert forall|k: int| 0 <= k < init.len() implies !has_white_space(#[trigger] init[k]) && init[k].len() > 0 by {
            assert(init[k] == ws[k]);
        }
        lemma_words_fold_words(init, max);
        let st = words_fold(init, max);
        let w = ws.last();
        assert(!has_white_space(w) && w.len() > 0) by {
            assert(w == ws[ws.len() - 1]);
        }
        lemma_words_single(w);
        let closed = if utf8_len(st.1) + utf8_len(w) + 1 > max && st.1.len() > 0 {
            (st.0.push(st.1), Seq::<char>::empty())
        } else {
            st
        };
        assert(flat_words(closed.0) + words(closed.1) == flat_words(st.0) + words(st.1)) by {
            if utf8_len(st.1) + utf8_len(w) + 1 > max && st.1.len() > 0 {
                lemma_flat_words_push(st.0, st.1);
                assert(flat_words(st.0) + words(st.1) + Seq::<Seq<char>>::empty() =~= flat_words(st.0)
                    + words(st.1));
            }
        }
        let cur = if closed.1.len() > 0 {
            closed.1 + seq![' '] + w
        } else {
            w
        };
        assert(words_fold(ws, max) == (closed.0, cur));
        if closed.1.len() > 0 {
            assert(crate::text::white_space(' '));
            lemma_words_join(closed.1, seq![' '], w);
        } else {
            assert(closed.1 =~= Seq::<char>::empty());
        }
        assert(words(cur) =~= words(closed.1) + seq![w]);
        assert(init.push(w) =~= ws);
        assert(flat_words(closed.0) + words(cur) =~= flat_words(closed.0) + words(closed.1) + seq![w]);
    }
}

/// Chunks made of words hold the words of the text, in order.
proof fn lemma_split_by_words_words(text: Seq<char>, max: nat)
    ensures
        flat_words(split_by_words_spec(text, max)) == words(text),
{
    lemma_words_no_white_space(text, 0);
    lemma_words_fold_words(words(text), max);
    let st = words_fold(words(text), max);
    lemma_words_empty();
    if st.1.len() > 0 {
        lemma_flat_words_push(st.0, st.1);
    } else {
        assert(flat_words(st.0) + words(st.1) =~= flat_words(st.0));
    }
}

/// Closing a packing trimmed keeps its words.
proof fn lemma_close_trimmed_words(st: Packing)
    ensures
        flat_words(close_trimmed(st)) == flat_words(st.0) + words(st.1),
{
    lemma_words_empty();
    if st.1.len() > 0 {
        lemma_flat_words_push(st.0, trim(st.1));
        lemma_words_trim(st.1);
    } else {
        assert(flat_words(st.0) + words(st.1) =~= flat_words(st.0));
    }
}

/// One packing step keeps the words, when the finer chunks keep the piece's words.
proof fn lemma_piece_step_words(st: Packing, piece: Seq<char>, sep: Seq<char>, max: nat, finer: Seq<Seq<char>>)
    requires
        sep.len() > 0,
        forall|j: int| 0 <= j < sep.len() ==> crate::text::white_space(#[trigger] sep[j]),
        flat_words(finer) == words(piece),
    ensures
        flat_words(piece_step(st, piece, sep, max, finer).0) + words(piece_step(st, piece, sep, max, finer).1)
            == flat_words(st.0) + words(st.1) + words(piece),
{
    lemma_words_empty();
    let r = piece_step(st, piece, sep, max, finer);
    if utf8_len(st.1) + utf8_len(piece) + utf8_len(sep) > max {
        let chunks = if st.1.len() > 0 {
            st.0.push(trim(st.1))
        } else {
            st.0
        };
        lemma_close_trimmed_words(st);
        assert(chunks == close_trimmed(st));
        if utf8_len(piece) > max {
            lemma_flat_words_concat(chunks, finer);
            assert(flat_words(r.0) + words(r.1) =~= flat_words(st.0) + words(st.1) + words(piece));
        } else {
            assert(flat_words(r.0) + words(r.1) =~= flat_words(st.0) + words(st.1) + words(piece));
        }
    } else {
        if st.1.len() > 0 {
            lemma_words_join(st.1, sep, piece);
            assert(flat_words(r.0) + words(r.1) =~= flat_words(st.0) + words(st.1) + words(piece));
        } else {
            assert(flat_words(r.0) + words(r.1) =~= flat_words(st.0) + words(st.1) + words(piece));
        }
    }
}

proof fn lemma_sentences_fold_words(ss: Seq<Seq<char>>, max: nat)
    ensures
        flat_words(sentences_fold(ss, max).0) + words(sentences_fold(ss, max).1) == flat_words(ss),
    decreases ss.len(),
{
    lemma_words_empty();
    if ss.len() > 0 {
        lemma_sentences_fold_words(ss.drop_last(), max);
        lemma_split_by_words_words(ss.last(), max);
        assert(crate::text::white_space(' '));
        lemma_piece_step_words(
            sentences_fold(ss.drop_last(), max),
            ss.last(),
            seq![' '],
            max,
            split_by_words_spec(ss.last(), max),
        );
    } else {
        assert(flat_words(sentences_fold(ss, max).0) + words(sentences_fold(ss, max).1) =~= flat_words(ss));
    }
}

proof fn lemma_split_by_sentences_words(text: Seq<char>, max: nat)
    ensures
        flat_words(split_by_sentences_spec(text, max)) == words(text),
{
    lemma_sentences_fold_words(sentences(text), max);
    lemma_close_trimmed_words(sentences_fold(sentences(text), max));
    lemma_sentences_words(text, 0);
}

proof fn lemma_lines_fold_words(ls: Seq<Seq<char>>, max: nat)
    ensures
        flat_words(lines_fold(ls, max).0) + words(lines_fold(ls, max).1) == flat_words(ls),
    decreases ls.len(),
{
    lemma_words_empty();
    if ls.len() > 0 {
        lemma_lines_fold_words(ls.drop_last(), max);
        lemma_split_by_sentences_words(ls.last(), max);
        assert(crate::text::white_space('\n'));
        lemma_piece_step_words(
            lines_fold(ls.drop_last(), max),
            ls.last(),
            seq!['\n'],
            max,
            split_by_sentences_spec(ls.last(), max),
        );
    } else {
        assert(flat_words(lines_fold(ls, max).0) + words(lines_fold(ls, max).1) =~= flat_words(ls));
    }
}

proof fn lemma_split_by_lines_words(text: Seq<char>, max: nat)
    ensures
        flat_words(split_by_lines_spec(text, max)) == words(text),
{
    let ls = split(text, seq!['\n']);
    lemma_lines_fold_words(ls, max);
    lemma_close_trimmed_words(lines_fold(ls, max));
    assert(crate::text::white_space('\n'));
    lemma_split_words(text, seq!['\n'], 0);
}

proof fn lemma_paragraphs_fold_words(ps: Seq<Seq<char>>, max: nat)
    ensures
        flat_words(paragraphs_fold(ps, max).0) + words(paragraphs_fold(ps, max).1) == flat_words(ps),
    decreases ps.len(),
{
    lemma_words_empty();
    if ps.len() > 0 {
        lemma_paragraphs_fold_words(ps.drop_last(), max);
        lemma_split_by_lines_words(ps.last(), max);
        assert(crate::text::white_space('\n'));
        lemma_piece_step_words(
            paragraphs_fold(ps.drop_last(), max),
            ps.last(),
            seq!['\n', '\n'],
            max,
            split_by_lines_spec(ps.last(), max),
        );
    } else {
        assert(flat_words(paragraphs_fold(ps, max).0) + words(paragraphs_fold(ps, max).1) =~= flat_words(ps));
    }
}

proof fn lemma_non_empty_words(cs: Seq<Seq<char>>)
    ensures
        flat_words(non_empty(cs)) == flat_words(cs),
    decreases cs.len(),
{
    if cs.len() > 0 {
        lemma_non_empty_words(cs.drop_last());
        if cs.last().len() > 0 {
            lemma_flat_words_push(non_empty(cs.drop_last()), cs.last());
        } else {
            lemma_words_empty();
            assert(cs.last() =~= Seq::<char>::empty());
            assert(flat_words(cs) =~= flat_words(cs.drop_last()));
        }
    }
}

/// Structure-aware chunking keeps the words of the text: read one chunk after
/// the other, the chunks hold the words of the text in order, none lost, none
/// split and none merged with another.
pub proof fn lemma_chunks_keep_words(text: Seq<char>, max: nat)
    ensures
        flat_words(split_by_structure_spec(text, max)) == words(text),
{
    if utf8_len(text) > max {
        let ps = split(text, seq!['\n', '\n']);
        lemma_paragraphs_fold_words(ps, max);
        lemma_close_trimmed_words(paragraphs_fold(ps, max));
        lemma_non_empty_words(close_trimmed(paragraphs_fold(ps, max)));
        assert(crate::text::white_space('\n'));
        lemma_split_words(text, seq!['\n', '\n'], 0);
    } else {
        lemma_flat_words_single(text);
    }
}

// ---------------------------------------------------------------------------
// Executable splitting
// ---------------------------------------------------------------------------

/// Whether a piece of `p` bytes fits beside a chunk of `cur` bytes with a
/// separator of `sep` bytes within `max` bytes.
fn fits(cur: usize, p: usize, sep: usize, max: usize) -> (b: bool)
    ensures
        b == (cur + p + sep <= max),
{
    (cur as u128) + (p as u128) + (sep as u128) <= (max as u128)
}

fn push_piece(out: &mut Vec<Vec<char>>, piece: Vec<char>)
    ensures
        views(final(out)@) == views(old(out)@).push(piece@),
{
    let ghost before = views(out@);
    out.push(piece);
    assert(views(out@) =~= before.push(piece@));
}

fn append_pieces(out: &mut Vec<Vec<char>>, more: Vec<Vec<char>>)
    ensures
        views(final(out)@) == views(old(out)@) + views(more@),
{
    let ghost before = views(out@);
    let ghost added = more@;
    let mut more = more;
    out.append(&mut more);
    assert(views(out@) =~= before + views(added));
}

/// Splits `text` on word boundaries into chunks of at most `max` bytes.
fn words_pieces(text: &Vec<char>, max: usize) -> (r: Vec<Vec<char>>)
    requires
        utf8_len(text@) <= usize::MAX,
    ensures
        views(r@) == split_by_words_spec(text@, max as nat),
{
    let ws = words_of(text);
    proof {
        lemma_words_fit(text@, 0);
    }
    let ghost wv = views(ws@);
    let mut chunks: Vec<Vec<char>> = Vec::new();
    let mut current: Vec<char> = Vec::new();
    let mut cur_bytes: usize = 0;
    let mut i: usize = 0;
    assert(wv.subrange(0, 0) =~= Seq::<Seq<char>>::empty());
    while i < ws.len()
        invariant
            i <= ws.len(),
            wv == views(ws@),
            wv == words(text@),
            utf8_len(text@) <= usize::MAX,
            forall|k: int| 0 <= k < wv.len() ==> utf8_len(#[trigger] wv[k]) <= utf8_len(text@),
            cur_bytes == utf8_len(current@),
            (views(chunks@), current@) == words_fold(wv.subrange(0, i as int), max as nat),
        decreases ws.len() - i,
    {
        let w = &ws[i];
        assert(wv[i as int] == w@);
        let wb = utf8_len_of(w);
        let ghost st = (views(chunks@), current@);
        if !fits(cur_bytes, wb, 1, max) && current.len() > 0 {
            let done = current;
            push_piece(&mut chunks, done);
            current = Vec::new();
            cur_bytes = 0;
        }
        if current.len() > 0 {
            proof {
                lemma_join_len(current@, seq![' '], w@);
                crate::text::lemma_utf8_len_single(' ');
            }
            current.push(' ');
            push_all(&mut current, w);
            cur_bytes = cur_bytes + 1 + wb;
        } else {
            current = w.clone();
            assert(current@ == w@);
            cur_bytes = wb;
        }
        proof {
            let sub = wv.subrange(0, i + 1);
            assert(sub.drop_last() =~= wv.subrange(0, i as int));
            assert(sub.last() == w@);
            assert(current@ =~= words_step(st, w@, max as nat).1);
        }
        i = i + 1;
    }
    assert(wv.subrange(0, ws.len() as int) =~= wv);
    if current.len() > 0 {
        push_piece(&mut chunks, current);
    }
    chunks
}

/// Packs the pieces `pieces` separated by `sep`; a piece too long is split
/// by the next finer level: paragraphs (level 2) by lines, lines (level 1) by
/// sentences, sentences (level 0) by words. Returns the packing's chunks and
/// its current chunk.
#[verifier::rlimit(40)]
fn pack_pieces(pieces: &Vec<Vec<char>>, sep: &Vec<char>, max: usize, level: u8, Ghost(bound): Ghost<nat>) -> (r: (Vec<Vec<char>>, Vec<char>))
    requires
        bound <= usize::MAX,
        level <= 2,
        utf8_len(sep@) <= 2,
        forall|k: int| 0 <= k < pieces.len() ==> utf8_len(#[trigger] pieces@[k]@) <= bound,
        level == 2 ==> sep@ == seq!['\n', '\n'],
        level == 1 ==> sep@ == seq!['\n'],
        level == 0 ==> sep@ == seq![' '],
    ensures
        level == 2 ==> (views(r.0@), r.1@) == paragraphs_fold(views(pieces@), max as nat),
        level == 1 ==> (views(r.0@), r.1@) == lines_fold(views(pieces@), max as nat),
        level == 0 ==> (views(r.0@), r.1@) == sentences_fold(views(pieces@), max as nat),
    decreases 2 * (level as nat),
{
    let ghost pv = views(pieces@);
    let sep_bytes = utf8_len_of(sep);
    let mut chunks: Vec<Vec<char>> = Vec::new();
    let mut current: Vec<char> = Vec::new();
    let mut cur_bytes: usize = 0;
    let mut i: usize = 0;
    assert(pv.subrange(0, 0) =~= Seq::<Seq<char>>::empty());
    while i < pieces.len()
        invariant
            i <= pieces.len(),
            pv == views(pieces@),
            pv.len() == pieces.len(),
            bound <= usize::MAX,
            sep_bytes == utf8_len(sep@),
            sep_bytes <= 2,
            forall|k: int| 0 <= k < pieces.len() ==> utf8_len(#[trigger] pieces@[k]@) <= bound,
            level <= 2,
            level == 2 ==> sep@ == seq!['\n', '\n'],
            level == 1 ==> sep@ == seq!['\n'],
            level == 0 ==> sep@ == seq![' '],
            cur_bytes == utf8_len(current@),
            level == 2 ==> (views(chunks@), current@) == paragraphs_fold(pv.subrange(0, i as int), max as nat),
            level == 1 ==> (views(chunks@), current@) == lines_fold(pv.subrange(0, i as int), max as nat),
            level == 0 ==> (views(chunks@), current@) == sentences_fold(pv.subrange(0, i as int), max as nat),
        decreases pieces.len() - i,
    {
        let p = &pieces[i];
        assert(pv[i as int] == p@);
        let pb = utf8_len_of(p);
        let ghost st = (views(chunks@), current@);
        let ghost sub = pv.subrange(0, i + 1);
        assert(sub.drop_last() =~= pv.subrange(0, i as int));
        assert(sub.last() == p@);
        if !fits(cur_bytes, pb, sep_bytes, max) {
            if current.len() > 0 {
                let t = trim_chars(&current);
                push_piece(&mut chunks, t);
            }
            current = Vec::new();
            cur_bytes = 0;
            if pb > max {
                proof {
                    crate::text::lemma_utf8_len_subrange(p@, 0, p@.len() as int);
                }
                let finer = if level == 2 {
                    lines_pieces(p, max)
                } else if level == 1 {
                    sentences_pieces(p, max)
                } else {
                    words_pieces(p, max)
                };
                append_pieces(&mut chunks, finer);
            } else {
                current = p.clone();
                assert(current@ == p@);
                cur_bytes = pb;
            }
        } else {
            if current.len() > 0 {
                proof {
                    lemma_join_len(current@, sep@, p@);
                }
                push_all(&mut current, sep);
                push_all(&mut current, p);
                cur_bytes = cur_bytes + sep_bytes + pb;
            } else {
                current = p.clone();
                assert(current@ == p@);
                cur_bytes = pb;
            }
        }
        i = i + 1;
    }
    assert(pv.subrange(0, pieces.len() as int) =~= pv);
    (chunks, current)
}

/// Each sentence of a text is a piece of the text.
pub proof fn lemma_sentences_fit(s: Seq<char>, from: int)
    requires
        0 <= from <= s.len(),
    ensures
        forall|k: int|
            0 <= k < sentences_from(s, from).len() ==> utf8_len(#[trigger] sentences_from(s, from)[k])
                <= utf8_len(s),
    decreases s.len() - from,
{
    lemma_sentence_end_from(s, from);
    match sentence_end_from(s, from) {
        None => {
            lemma_utf8_len_subrange(s, from, s.len() as int);
        },
        Some(i) => {
            lemma_utf8_len_subrange(s, from, i + 1);
            lemma_sentences_fit(s, i + 2);
            let rest = sentences_from(s, i + 2);
            assert forall|k: int| 0 <= k < sentences_from(s, from).len() implies utf8_len(
                #[trigger] sentences_from(s, from)[k],
            ) <= utf8_len(s) by {
                if k > 0 {
                    assert(sentences_from(s, from)[k] == rest[k - 1]);
                }
            }
        },
    }
}

/// Whether a sentence of `v` ends at index `i`.
fn sentence_ends_at(v: &Vec<char>, i: usize) -> (b: bool)
    ensures
        b == is_sentence_end(v@, i as int),
{
    i < v.len() && v.len() - i > 1 && (v[i] == '.' || v[i] == '!' || v[i] == '?')
        && crate::text::is_whitespace(v[i + 1])
}

/// The sentences of `v`.
fn sentences_of(v: &Vec<char>) -> (r: Vec<Vec<char>>)
    ensures
        views(r@) == sentences(v@),
{
    let mut out: Vec<Vec<char>> = Vec::new();
    let mut start: usize = 0;
    let mut i: usize = 0;
    assert(views(out@) + sentences_from(v@, 0) =~= sentences(v@));
    while i < v.len() && v.len() - i > 1
        invariant
            start <= i <= v.len(),
            sentence_end_from(v@, start as int) == sentence_end_from(v@, i as int),
            views(out@) + sentences_from(v@, start as int) == sentences(v@),
        decreases v.len() - i,
    {
        if sentence_ends_at(v, i) {
            let piece = copy_range(v, start, i + 1);
            let ghost before = views(out@);
            assert(sentences_from(v@, start as int) == seq![v@.subrange(start as int, i + 1)] + sentences_from(
                v@,
                i + 2,
            ));
            push_piece(&mut out, piece);
            assert(views(out@) + sentences_from(v@, i + 2) =~= before + sentences_from(v@, start as int));
            start = i + 2;
            i = i + 2;
        } else {
            i = i + 1;
        }
    }
    assert(sentence_end_from(v@, i as int) is None);
    let ghost before = views(out@);
    let last = copy_range(v, start, v.len());
    push_piece(&mut out, last);
    assert(views(out@) =~= before + sentences_from(v@, start as int));
    out
}

/// Splits `text` into chunks of whole sentences where they fit.
fn sentences_pieces(text: &Vec<char>, max: usize) -> (r: Vec<Vec<char>>)
    requires
        utf8_len(text@) <= usize::MAX,
    ensures
        views(r@) == split_by_sentences_spec(text@, max as nat),
    decreases 1nat,
{
    let sp = vec![' '];
    assert(sp@ =~= seq![' ']);
    let ss = sentences_of(text);
    proof {
        lemma_sentences_fit(text@, 0);
        crate::text::lemma_utf8_len_single(' ');
        assert forall|k: int| 0 <= k < ss.len() implies utf8_len(#[trigger] ss@[k]@) <= utf8_len(text@) by {
            assert(views(ss@)[k] == ss@[k]@);
            assert(views(ss@)[k] == sentences_from(text@, 0)[k]);
        }
    }
    let (mut chunks, current) = pack_pieces(&ss, &sp, max, 0, Ghost(utf8_len(text@)));
    if current.len() > 0 {
        let t = trim_chars(&current);
        push_piece(&mut chunks, t);
    }
    chunks
}

/// Splits `text` into chunks of whole lines where they fit.
fn lines_pieces(text: &Vec<char>, max: usize) -> (r: Vec<Vec<char>>)
    requires
        utf8_len(text@) <= usize::MAX,
    ensures
        views(r@) == split_by_lines_spec(text@, max as nat),
    decreases 3nat,
{
    let nl = vec!['\n'];
    assert(nl@ =~= seq!['\n']);
    let lines = split_chars(text, &nl);
    proof {
        lemma_split_pieces_fit(text@, seq!['\n'], 0);
        crate::text::lemma_utf8_len_single('\n');
        assert forall|k: int| 0 <= k < lines.len() implies utf8_len(#[trigger] lines@[k]@) <= utf8_len(text@) by {
            assert(views(lines@)[k] == lines@[k]@);
            assert(views(lines@)[k] == split_from(text@, seq!['\n'], 0)[k]);
        }
    }
    let (mut chunks, current) = pack_pieces(&lines, &nl, max, 1, Ghost(utf8_len(text@)));
    if current.len() > 0 {
        let t = trim_chars(&current);
        push_piece(&mut chunks, t);
    }
    chunks
}

/// Splits `text` respecting its structure: the text itself when it fits in
/// `max` bytes, otherwise paragraphs (separated by blank lines) packed
/// together where they fit, too-long paragraphs split by lines, too-long
/// lines by sentences, too-long sentences by words; empty chunks are dropped.
pub fn structure_pieces(text: &Vec<char>, max: usize) -> (r: Vec<Vec<char>>)
    requires
        utf8_len(text@) <= usize::MAX,
    ensures
        views(r@) == split_by_structure_spec(text@, max as nat),
{
    let total = utf8_len_of(text);
    if total <= max {
        let mut r: Vec<Vec<char>> = Vec::new();
        push_piece(&mut r, text.clone());
        assert(views(r@) =~= seq![text@]);
        return r;
    }
    let sep = vec!['\n', '\n'];
    assert(sep@ =~= seq!['\n', '\n']);
    let paras = split_chars(text, &sep);
    proof {
        lemma_split_pieces_fit(text@, seq!['\n', '\n'], 0);
        crate::text::lemma_utf8_len_single('\n');
        lemma_utf8_len_concat(seq!['\n'], seq!['\n']);
        assert(seq!['\n'] + seq!['\n'] =~= seq!['\n', '\n']);
        assert forall|k: int| 0 <= k < paras.len() implies utf8_len(#[trigger] paras@[k]@) <= utf8_len(text@) by {
            assert(views(paras@)[k] == paras@[k]@);
            assert(views(paras@)[k] == split_from(text@, seq!['\n', '\n'], 0)[k]);
        }
    }
    let (mut chunks, current) = pack_pieces(&paras, &sep, max, 2, Ghost(utf8_len(text@)));
    if current.len() > 0 {
        let t = trim_chars(&current);
        push_piece(&mut chunks, t);
    }
    let ghost closed = views(chunks@);
    let mut out: Vec<Vec<char>> = Vec::new();
    let mut i: usize = 0;
    assert(closed.subrange(0, 0) =~= Seq::<Seq<char>>::empty());
    while i < chunks.len()
        invariant
            i <= chunks.len(),
            closed == views(chunks@),
            closed.len() == chunks.len(),
            views(out@) == non_empty(closed.subrange(0, i as int)),
        decreases chunks.len() - i,
    {
        let ghost sub = closed.subrange(0, i + 1);
        assert(sub.drop_last() =~= closed.subrange(0, i as int));
        assert(sub.last() == chunks@[i as int]@);
        if chunks[i].len() > 0 {
            push_piece(&mut out, chunks[i].clone());
        }
        i = i + 1;
    }
    assert(closed.subrange(0, chunks.len() as int) =~= closed);
    out
}

// ---------------------------------------------------------------------------
// Chunks of a document
// ---------------------------------------------------------------------------

/// The characters of each string of `v`.
pub open spec fn string_views(v: Seq<String>) -> Seq<Seq<char>> {
    v.map_values(|s: String| s@)
}

/// Strings made of the pieces `pieces`.
fn to_strings(pieces: &Vec<Vec<char>>) -> (r: Vec<String>)
    ensures
        string_views(r@) == views(pieces@),
{
    let mut r: Vec<String> = Vec::new();
    let mut i: usize = 0;
    while i < pieces.len()
        invariant
            i <= pieces.len(),
            string_views(r@) == views(pieces@).subrange(0, i as int),
        decreases pieces.len() - i,
    {
        let ghost before = r@;
        r.push(string_from_chars(pieces[i].as_slice()));
        assert(string_views(r@) =~= string_views(before).push(pieces@[i as int]@));
        assert(views(pieces@).subrange(0, i + 1) =~= views(pieces@).subrange(0, i as int).push(
            pieces@[i as int]@,
        ));
        i = i + 1;
    }
    assert(views(pieces@).subrange(0, pieces.len() as int) =~= views(pieces@));
    r
}

/// Splits `text` on word boundaries into chunks of at most `max_size` bytes
/// (a word longer than that is a chunk of its own).
pub fn split_by_words(text: &str, max_size: usize) -> (r: Vec<String>)
    requires
        utf8_len(text@) <= usize::MAX,
    ensures
        string_views(r@) == split_by_words_spec(text@, max_size as nat),
{
    let v = chars_of(text);
    let pieces = words_pieces(&v, max_size);
    to_strings(&pieces)
}

/// Splits `text` into chunks of whole lines where they fit in `max_size`
/// bytes, splitting a longer line by sentences (and a longer sentence by
/// words).
pub fn split_by_lines(text: &str, max_size: usize) -> (r: Vec<String>)
    requires
        utf8_len(text@) <= usize::MAX,
    ensures
        string_views(r@) == split_by_lines_spec(text@, max_size as nat),
{
    let v = chars_of(text);
    let pieces = lines_pieces(&v, max_size);
    to_strings(&pieces)
}

/// Splits `text` respecting its structure into chunks of at most
/// `max_chunk_size` bytes where words allow: the text itself when it fits,
/// else paragraphs, lines, sentences, words.
pub fn split_by_structure(text: &str, max_chunk_size: usize) -> (r: Vec<String>)
    requires
        utf8_len(text@) <= usize::MAX,
    ensures
        string_views(r@) == split_by_structure_spec(text@, max_chunk_size as nat),
{
    let v = chars_of(text);
    let pieces = structure_pieces(&v, max_chunk_size);
    to_strings(&pieces)
}

/// The start offset of the chunk after `pieces`: each chunk advances the
/// offset by its byte length less the overlap (never below zero).
pub open spec fn offset_after(pieces: Seq<Seq<char>>, overlap: nat) -> nat
    decreases pieces.len(),
{
    if pieces.len() == 0 {
        0
    } else {
        offset_after(pieces.drop_last(), overlap) + if utf8_len(pieces.last()) > overlap {
            (utf8_len(pieces.last()) - overlap) as nat
        } else {
            0
        }
    }
}

/// The offsets of every chunk of `pieces` fit in a `usize`.
pub open spec fn offsets_fit(pieces: Seq<Seq<char>>, overlap: nat) -> bool {
    forall|i: int|
        0 <= i < pieces.len() ==> offset_after(pieces.subrange(0, i), overlap) + utf8_len(
            #[trigger] pieces[i],
        ) <= usize::MAX
}

/// The id of chunk `i` of document `doc_id`.
pub open spec fn chunk_id(doc_id: Seq<char>, i: nat) -> Seq<char> {
    doc_id + "-"@ + decimal(i)
}

/// `c` is chunk `i` of document `doc`, cut from `pieces`.
pub open spec fn is_chunk_of(c: ChunkView, doc: Document, pieces: Seq<Seq<char>>, overlap: nat, i: int) -> bool {
    &&& c.id == chunk_id(doc.id@, i as nat)
    &&& c.document_id == doc.id@
    &&& c.content == pieces[i]
    &&& c.start_offset == offset_after(pieces.subrange(0, i), overlap)
    &&& c.end_offset == c.start_offset + utf8_len(pieces[i])
    &&& c.chunk_index == i
    &&& c.embedding is None
    &&& c.tq_embedding is None
}

/// Chunks a document: no chunks for an empty document; otherwise one chunk
/// per piece of `split_by_structure`, in order, each with its index, an id
/// made of the document's id and the index, and byte offsets that advance by
/// the chunk's length less `overlap`.
pub fn chunk_document(doc: &Document, chunk_size: usize, overlap: usize) -> (r: Vec<Chunk>)
    requires
        utf8_len(doc.content@) <= usize::MAX,
        offsets_fit(split_by_structure_spec(doc.content@, chunk_size as nat), overlap as nat),
    ensures
        doc.content@.len() == 0 ==> r.len() == 0,
        doc.content@.len() > 0 ==> {
            let pieces = split_by_structure_spec(doc.content@, chunk_size as nat);
            &&& r.len() == pieces.len()
            &&& forall|i: int| 0 <= i < r.len() ==> is_chunk_of(#[trigger] r@[i]@, *doc, pieces, overlap as nat, i)
        },
{
    let text = chars_of(doc.content.as_str());
    if text.len() == 0 {
        return Vec::new();
    }
    let splits = structure_pieces(&text, chunk_size);
    let ghost pieces = views(splits@);
    let mut chunks: Vec<Chunk> = Vec::new();
    let mut offset: usize = 0;
    let mut i: usize = 0;
    while i < splits.len()
        invariant
            i <= splits.len(),
            pieces == views(splits@),
            pieces == split_by_structure_spec(doc.content@, chunk_size as nat),
            pieces.len() == splits.len(),
            offsets_fit(pieces, overlap as nat),
            offset == offset_after(pieces.subrange(0, i as int), overlap as nat),
            chunks.len() == i,
            forall|k: int| 0 <= k < i ==> is_chunk_of(#[trigger] chunks@[k]@, *doc, pieces, overlap as nat, k),
        decreases splits.len() - i,
    {
        let split = &splits[i];
        assert(pieces[i as int] == split@);
        let content = string_from_chars(split.as_slice());
        let len = content.as_str().len();
        assert(utf8_len(pieces[i as int]) <= usize::MAX);
        assert(len == utf8_len(split@));
        let mut id: Vec<char> = Vec::new();
        push_str_chars(&mut id, doc.id.as_str());
        push_str_chars(&mut id, "-");
        push_decimal(&mut id, i as u64);
        let chunk = Chunk {
            id: string_from_chars(id.as_slice()),
            document_id: doc.id.clone(),
            content,
            start_offset: offset,
            end_offset: offset + len,
            chunk_index: i,
            embedding: None,
            tq_embedding: None,
        };
        let ghost chunks_before = chunks@;
        chunks.push(chunk);
        proof {
            assert forall|k: int| 0 <= k < i + 1 implies is_chunk_of(#[trigger] chunks@[k]@, *doc, pieces, overlap as nat, k) by {
                if k < i {
                    assert(chunks@[k] == chunks_before[k]);
                }
            }
            let sub = pieces.subrange(0, i + 1);
            assert(sub.drop_last() =~= pieces.subrange(0, i as int));
            assert(sub.last() == split@);
        }
        offset = if len > overlap {
            offset + (len - overlap)
        } else {
            offset
        };
        i = i + 1;
    }
    chunks
}

} // verus!
