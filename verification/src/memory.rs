//! What the application remembers about the user, as the system prompt
//! shows it, and the excerpt of a message that a search hit shows.
use vstd::prelude::*;

use crate::text::{
    all_ascii, ascii_lowercase, char_at_byte, char_index_of_byte, chars_of, copy_range, find_chars, find_from, is_char_boundary,
    lemma_char_index_of_byte, lemma_prefix_len_strict, occurs_at, push_all, push_str_chars, spec_lowercase,
    string_from_chars, to_lowercase, utf8_len, utf8_len_of, utf8_len_upto,
};

verus! {

/// A stored memory: (id, key, value, category, time of the last update).
pub type MemoryRow = (String, String, String, String, i64);

/// The (key, value) of the memories of category `category`, in order.
pub open spec fn category_entries(mems: Seq<MemoryRow>, category: Seq<char>) -> Seq<(Seq<char>, Seq<char>)>
    decreases mems.len(),
{
    if mems.len() == 0 {
        seq![]
    } else {
        let rest = category_entries(mems.drop_last(), category);
        if mems.last().3@ == category {
            rest.push((mems.last().1@, mems.last().2@))
        } else {
            rest
        }
    }
}

/// One `- key: value` line per entry.
pub open spec fn bullets(entries: Seq<(Seq<char>, Seq<char>)>) -> Seq<char>
    decreases entries.len(),
{
    if entries.len() == 0 {
        seq![]
    } else {
        bullets(entries.drop_last()) + "- "@ + entries.last().0 + ": "@ + entries.last().1 + "\n"@
    }
}

/// A section: its heading, its lines and a blank line; nothing when it has no
/// entry.
pub open spec fn memory_section(heading: Seq<char>, entries: Seq<(Seq<char>, Seq<char>)>) -> Seq<char> {
    if entries.len() == 0 {
        seq![]
    } else {
        heading + bullets(entries) + "\n"@
    }
}

/// The memory context of the system prompt: empty without memories,
/// otherwise a heading, the known facts and the user's preferences (other
/// categories are not shown).
pub open spec fn memory_context(mems: Seq<MemoryRow>) -> Seq<char> {
    if mems.len() == 0 {
        seq![]
    } else {
        "## User Memory\n\n"@ + memory_section("### Known Facts\n"@, category_entries(mems, "fact"@))
            + memory_section("### User Preferences\n"@, category_entries(mems, "preference"@))
    }
}

/// The line a memory is shown by.
pub open spec fn memory_line(key: Seq<char>, value: Seq<char>) -> Seq<char> {
    "- "@ + key + ": "@ + value + "\n"@
}

proof fn lemma_occurs_in_concat(a: Seq<char>, b: Seq<char>, c: Seq<char>, pat: Seq<char>, o: int)
    requires
        occurs_at(b, pat, o),
    ensures
        occurs_at(a + b + c, pat, a.len() + o),
{
    let s = a + b + c;
    assert(s.subrange(a.len() + o, a.len() + o + pat.len()) =~= b.subrange(o, o + pat.len()));
}

/// Each entry's line is among the lines.
proof fn lemma_bullets_hold(es: Seq<(Seq<char>, Seq<char>)>, k: int)
    requires
        0 <= k < es.len(),
    ensures
        exists|o: int| occurs_at(bullets(es), memory_line(es[k].0, es[k].1), o),
    decreases es.len(),
{
    let init = es.drop_last();
    let line = memory_line(es.last().0, es.last().1);
    assert(bullets(es) =~= bullets(init) + line);
    if k < es.len() - 1 {
        lemma_bullets_hold(init, k);
        assert(init[k] == es[k]);
        let o = choose|o: int| occurs_at(bullets(init), memory_line(es[k].0, es[k].1), o);
        lemma_occurs_in_concat(Seq::<char>::empty(), bullets(init), line, memory_line(es[k].0, es[k].1), o);
        assert(Seq::<char>::empty() + bullets(init) + line =~= bullets(es));
    } else {
        assert(occurs_at(line, line, 0)) by {
            assert(line.subrange(0, line.len() as int) =~= line);
        }
        lemma_occurs_in_concat(bullets(init), line, Seq::<char>::empty(), line, 0);
        assert(bullets(init) + line + Seq::<char>::empty() =~= bullets(es));
    }
}

/// A memory of a category is among that category's entries.
proof fn lemma_entry_of_memory(mems: Seq<MemoryRow>, category: Seq<char>, k: int)
    requires
        0 <= k < mems.len(),
        mems[k].3@ == category,
    ensures
        category_entries(mems, category).contains((mems[k].1@, mems[k].2@)),
    decreases mems.len(),
{
    let init = mems.drop_last();
    let rest = category_entries(init, category);
    if k < mems.len() - 1 {
        lemma_entry_of_memory(init, category, k);
        assert(init[k] == mems[k]);
        let w = choose|w: int| 0 <= w < rest.len() && rest[w] == (mems[k].1@, mems[k].2@);
        if mems.last().3@ == category {
            assert(rest.push((mems.last().1@, mems.last().2@))[w] == rest[w]);
        }
    } else {
        assert(rest.push((mems.last().1@, mems.last().2@))[rest.len() as int] == (mems[k].1@, mems[k].2@));
    }
}

/// A category's entries are the (key, value) of the memories of that
/// category, in the order of the memories.
pub proof fn lemma_category_entries_in_order(mems: Seq<MemoryRow>, category: Seq<char>)
    ensures
        category_entries(mems, category) == mems.filter(|m: MemoryRow| m.3@ == category).map_values(
            |m: MemoryRow| (m.1@, m.2@),
        ),
    decreases mems.len(),
{
    reveal_with_fuel(Seq::filter, 1);
    if mems.len() > 0 {
        lemma_category_entries_in_order(mems.drop_last(), category);
        let f = mems.drop_last().filter(|m: MemoryRow| m.3@ == category);
        if mems.last().3@ == category {
            assert(f.push(mems.last()).map_values(|m: MemoryRow| (m.1@, m.2@)) =~= f.map_values(
                |m: MemoryRow| (m.1@, m.2@),
            ).push((mems.last().1@, mems.last().2@)));
        }
    } else {
        assert(mems.filter(|m: MemoryRow| m.3@ == category) =~= Seq::<MemoryRow>::empty());
        assert(mems.filter(|m: MemoryRow| m.3@ == category).map_values(|m: MemoryRow| (m.1@, m.2@)) =~= seq![]);
    }
}

/// One entry makes one `- key: value` line.
pub proof fn lemma_bullets_single(e: (Seq<char>, Seq<char>))
    ensures
        bullets(seq![e]) == "- "@ + e.0 + ": "@ + e.1 + "\n"@,
{
    assert(seq![e].drop_last() =~= Seq::<(Seq<char>, Seq<char>)>::empty());
    assert(bullets(Seq::<(Seq<char>, Seq<char>)>::empty()) == Seq::<char>::empty());
    assert(seq![e].last() == e);
    assert(Seq::<char>::empty() + "- "@ + e.0 + ": "@ + e.1 + "\n"@ =~= "- "@ + e.0 + ": "@ + e.1 + "\n"@);
}

/// The lines of entries written one after the other are the lines of the
/// first entries followed by those of the rest.
pub proof fn lemma_bullets_concat(a: Seq<(Seq<char>, Seq<char>)>, b: Seq<(Seq<char>, Seq<char>)>)
    ensures
        bullets(a + b) == bullets(a) + bullets(b),
    decreases b.len(),
{
    if b.len() == 0 {
        assert(a + b =~= a);
        assert(bullets(a) + bullets(b) =~= bullets(a));
    } else {
        lemma_bullets_concat(a, b.drop_last());
        assert((a + b).drop_last() =~= a + b.drop_last());
        assert((a + b).last() == b.last());
    }
}

/// Each fact and each preference is shown in the memory context in the
/// section of its category, whatever the other memories are: the context
/// holds the facts' section and the preferences' section, each made of its
/// heading and one `- key: value` line per memory of that category, and the
/// line of every fact and every preference.
pub proof fn lemma_memory_context_shows(mems: Seq<MemoryRow>)
    ensures
        mems.len() > 0 ==> memory_context(mems) == "## User Memory\n\n"@ + (if category_entries(
            mems,
            "fact"@,
        ).len() > 0 {
            "### Known Facts\n"@ + bullets(category_entries(mems, "fact"@)) + "\n"@
        } else {
            Seq::<char>::empty()
        }) + (if category_entries(mems, "preference"@).len() > 0 {
            "### User Preferences\n"@ + bullets(category_entries(mems, "preference"@)) + "\n"@
        } else {
            Seq::<char>::empty()
        }),
        mems.len() == 0 ==> memory_context(mems).len() == 0,
        category_entries(mems, "fact"@).len() > 0 ==> exists|o: int|
            occurs_at(
                memory_context(mems),
                "### Known Facts\n"@ + bullets(category_entries(mems, "fact"@)) + "\n"@,
                o,
            ),
        category_entries(mems, "preference"@).len() > 0 ==> exists|o: int|
            occurs_at(
                memory_context(mems),
                "### User Preferences\n"@ + bullets(category_entries(mems, "preference"@)) + "\n"@,
                o,
            ),
        forall|k: int|
            #![trigger mems[k]]
            0 <= k < mems.len() && (mems[k].3@ == "fact"@ || mems[k].3@ == "preference"@) ==> exists|o: int|
                occurs_at(memory_context(mems), memory_line(mems[k].1@, mems[k].2@), o),
{
    let facts = category_entries(mems, "fact"@);
    let prefs = category_entries(mems, "preference"@);
    let h = "## User Memory\n\n"@;
    let fs = memory_section("### Known Facts\n"@, facts);
    let ps = memory_section("### User Preferences\n"@, prefs);
    if mems.len() > 0 {
        let ctx = memory_context(mems);
        assert(ctx == h + fs + ps);
        if facts.len() > 0 {
            assert(occurs_at(fs, fs, 0)) by {
                assert(fs.subrange(0, fs.len() as int) =~= fs);
            }
            lemma_occurs_in_concat(h, fs, ps, fs, 0);
        }
        if prefs.len() > 0 {
            assert(occurs_at(ps, ps, 0)) by {
                assert(ps.subrange(0, ps.len() as int) =~= ps);
            }
            lemma_occurs_in_concat(h + fs, ps, Seq::<char>::empty(), ps, 0);
            assert(h + fs + ps + Seq::<char>::empty() =~= ctx);
        }
    }
    assert forall|k: int|
        #![trigger mems[k]]
        0 <= k < mems.len() && (mems[k].3@ == "fact"@ || mems[k].3@ == "preference"@) implies exists|o: int|
            occurs_at(memory_context(mems), memory_line(mems[k].1@, mems[k].2@), o) by {
        let o = lemma_memory_line_shown(mems, k);
    }
}

/// Where the line of memory `k`, a fact or a preference, stands in the
/// memory context.
proof fn lemma_memory_line_shown(mems: Seq<MemoryRow>, k: int) -> (o: int)
    requires
        0 <= k < mems.len(),
        mems[k].3@ == "fact"@ || mems[k].3@ == "preference"@,
    ensures
        occurs_at(memory_context(mems), memory_line(mems[k].1@, mems[k].2@), o),
{
    let facts = category_entries(mems, "fact"@);
    let prefs = category_entries(mems, "preference"@);
    let h = "## User Memory\n\n"@;
    let fs = memory_section("### Known Facts\n"@, facts);
    let ps = memory_section("### User Preferences\n"@, prefs);
    let ctx = memory_context(mems);
    assert(ctx == h + fs + ps);
    let line = memory_line(mems[k].1@, mems[k].2@);
    let is_fact = mems[k].3@ == "fact"@;
    let es = if is_fact { facts } else { prefs };
    let hd = if is_fact { "### Known Facts\n"@ } else { "### User Preferences\n"@ };
    lemma_entry_of_memory(mems, mems[k].3@, k);
    let j = choose|j: int| 0 <= j < es.len() && es[j] == (mems[k].1@, mems[k].2@);
    lemma_bullets_hold(es, j);
    let o = choose|o: int| occurs_at(bullets(es), memory_line(es[j].0, es[j].1), o);
    lemma_occurs_in_concat(hd, bullets(es), "\n"@, line, o);
    if is_fact {
        assert(fs == hd + bullets(es) + "\n"@);
        lemma_occurs_in_concat(h, fs, ps, line, hd.len() + o);
        h.len() + hd.len() + o
    } else {
        assert(ps == hd + bullets(es) + "\n"@);
        lemma_occurs_in_concat(h + fs, ps, Seq::<char>::empty(), line, hd.len() + o);
        assert(h + fs + ps + Seq::<char>::empty() =~= ctx);
        (h + fs).len() + hd.len() + o
    }
}

/// Appends the section `heading` of the memories of `category`.
fn push_section(out: &mut Vec<char>, mems: &Vec<MemoryRow>, heading: &str, category: &str)
    ensures
        final(out)@ == old(out)@ + memory_section(heading@, category_entries(mems@, category@)),
{
    let mut lines: Vec<char> = Vec::new();
    let mut count: usize = 0;
    let mut i: usize = 0;
    while i < mems.len()
        invariant
            i <= mems.len(),
            lines@ == bullets(category_entries(mems@.subrange(0, i as int), category@)),
            count as int == category_entries(mems@.subrange(0, i as int), category@).len(),
            count <= i,
        decreases mems.len() - i,
    {
        let ghost pre = mems@.subrange(0, i as int);
        let ghost next = mems@.subrange(0, i + 1);
        assert(next.drop_last() =~= pre);
        assert(next.last() == mems@[i as int]);
        let m = &mems[i];
        if crate::text::str_eq(m.3.as_str(), category) {
            let ghost before = lines@;
            push_str_chars(&mut lines, "- ");
            push_str_chars(&mut lines, m.1.as_str());
            push_str_chars(&mut lines, ": ");
            push_str_chars(&mut lines, m.2.as_str());
            push_str_chars(&mut lines, "\n");
            count = count + 1;
            proof {
                let es = category_entries(next, category@);
                assert(es.drop_last() =~= category_entries(pre, category@));
                assert(lines@ =~= bullets(es));
            }
        }
        i = i + 1;
    }
    assert(mems@.subrange(0, mems.len() as int) =~= mems@);
    if count > 0 {
        push_str_chars(out, heading);
        push_all(out, &lines);
        push_str_chars(out, "\n");
        assert(final(out)@ =~= old(out)@ + memory_section(heading@, category_entries(mems@, category@)));
    } else {
        assert(out@ =~= old(out)@ + memory_section(heading@, category_entries(mems@, category@)));
    }
}

/// The memory context of the system prompt for the stored memories `mems`.
pub fn format_memory_context(mems: &Vec<MemoryRow>) -> (r: String)
    ensures
        r@ == memory_context(mems@),
{
    if mems.len() == 0 {
        return String::new();
    }
    let mut out: Vec<char> = Vec::new();
    push_str_chars(&mut out, "## User Memory\n\n");
    push_section(&mut out, mems, "### Known Facts\n", "fact");
    push_section(&mut out, mems, "### User Preferences\n", "preference");
    assert(out@ =~= memory_context(mems@));
    string_from_chars(out.as_slice())
}

// ---------------------------------------------------------------------------
// The excerpt of a search hit
// ---------------------------------------------------------------------------

/// The byte offset, in the lower-cased `content`, of the first occurrence of
/// the lower-cased `query` (what `str::find` gives there).
pub open spec fn match_offset(content: Seq<char>, query: Seq<char>) -> Option<int> {
    match find_from(spec_lowercase(content), spec_lowercase(query), 0) {
        Some(i) => Some(utf8_len(spec_lowercase(content).subrange(0, i)) as int),
        None => None,
    }
}

/// The byte range of `content` an excerpt shows: 50 bytes on either side of
/// a match of `query_len` bytes at `found`, clipped to the content; the first
/// 100 bytes when nothing matched.
pub open spec fn excerpt_span(content: Seq<char>, query_len: int, found: Option<int>) -> (int, int) {
    match found {
        Some(pos) => (
            if pos >= 50 {
                pos - 50
            } else {
                0
            },
            if pos + query_len + 50 < utf8_len(content) {
                pos + query_len + 50
            } else {
                utf8_len(content) as int
            },
        ),
        None => (
            0,
            if utf8_len(content) < 100 {
                utf8_len(content) as int
            } else {
                100
            },
        ),
    }
}

/// Whether that range can be cut out of `content`: in order, and on character
/// boundaries (and the arithmetic on offsets fits).
pub open spec fn excerpt_fits(content: Seq<char>, query_len: int, found: Option<int>) -> bool {
    let (s, e) = excerpt_span(content, query_len, found);
    &&& s <= e
    &&& is_char_boundary(content, s)
    &&& is_char_boundary(content, e)
    &&& (found matches Some(pos) ==> pos + query_len + 50 <= usize::MAX)
}

/// The excerpt: the range's text, with `...` where it cuts the content short
/// around a match.
pub open spec fn excerpt(content: Seq<char>, query_len: int, found: Option<int>) -> Seq<char> {
    let (s, e) = excerpt_span(content, query_len, found);
    let body = content.subrange(char_index_of_byte(content, s), char_index_of_byte(content, e));
    match found {
        Some(_) => (if s > 0 {
            "..."@
        } else {
            seq![]
        }) + body + (if e < utf8_len(content) {
            "..."@
        } else {
            seq![]
        }),
        None => body,
    }
}

/// An optional offset as an integer.
pub open spec fn opt_int(found: Option<usize>) -> Option<int> {
    match found {
        Some(p) => Some(p as int),
        None => None,
    }
}

/// The excerpt of `content` around a match of `query_len` bytes at byte
/// `found` (the first 100 bytes when there is none).
pub fn excerpt_around(content: &str, query_len: usize, found: Option<usize>) -> (r: String)
    requires
        utf8_len(content@) <= usize::MAX,
        excerpt_fits(content@, query_len as int, opt_int(found)),
    ensures
        r@ == excerpt(content@, query_len as int, opt_int(found)),
{
    let v = chars_of(content);
    let total = utf8_len_of(&v);
    let ghost span = excerpt_span(content@, query_len as int, opt_int(found));
    let (s, e): (usize, usize) = match found {
        Some(pos) => {
            let s: usize = if pos >= 50 {
                pos - 50
            } else {
                0
            };
            let far = pos + query_len + 50;
            let e: usize = if far < total {
                far
            } else {
                total
            };
            (s, e)
        },
        None => {
            let e: usize = if total < 100 {
                total
            } else {
                100
            };
            (0, e)
        },
    };
    assert(s == span.0 && e == span.1);
    let a = match char_at_byte(&v, s) {
        Some(a) => a,
        None => {
            assert(false);
            0
        },
    };
    let b = match char_at_byte(&v, e) {
        Some(b) => b,
        None => {
            assert(false);
            0
        },
    };
    proof {
        lemma_char_index_of_byte(v@, a as int);
        lemma_char_index_of_byte(v@, b as int);
        if b < a {
            lemma_prefix_len_strict(v@, b as int, a as int);
        }
    }
    let body = copy_range(&v, a, b);
    match found {
        Some(_) => {
            let mut out: Vec<char> = Vec::new();
            if s > 0 {
                push_str_chars(&mut out, "...");
            }
            push_all(&mut out, &body);
            if e < total {
                push_str_chars(&mut out, "...");
            }
            assert(out@ =~= excerpt(content@, query_len as int, opt_int(found)));
            string_from_chars(out.as_slice())
        },
        None => string_from_chars(body.as_slice()),
    }
}

/// The excerpt a search hit shows of `content` for `query`: around the first
/// case-insensitive match, or the beginning when there is none. `None` where
/// that range cannot be cut out of the content (its ends fall inside a
/// character, as can happen when lower-casing changes byte lengths). On ASCII
/// text, lower-casing is ASCII lower-casing.
pub fn content_snippet(content: &str, query: &str) -> (r: Option<String>)
    requires
        utf8_len(content@) <= usize::MAX,
        utf8_len(query@) <= usize::MAX,
    ensures
        excerpt_fits(content@, utf8_len(query@) as int, match_offset(content@, query@)) ==> (r matches Some(
            x,
        ) && x@ == excerpt(content@, utf8_len(query@) as int, match_offset(content@, query@))),
        !excerpt_fits(content@, utf8_len(query@) as int, match_offset(content@, query@)) ==> r is None,
        all_ascii(content@) ==> spec_lowercase(content@) == ascii_lowercase(content@),
        all_ascii(query@) ==> spec_lowercase(query@) == ascii_lowercase(query@),
{
    let lc = to_lowercase(content);
    let lq = to_lowercase(query);
    let lcv = chars_of(lc.as_str());
    let lqv = chars_of(lq.as_str());
    let qv = chars_of(query);
    let query_len = utf8_len_of(&qv);
    let v = chars_of(content);
    let total = utf8_len_of(&v);
    let ghost offset = match_offset(content@, query@);
    let found: Option<usize> = match find_chars(&lcv, &lqv, 0) {
        None => None,
        Some(i) => {
            proof {
                crate::text::lemma_find_from(lcv@, lqv@, 0);
            }
            match utf8_len_upto(&lcv, i) {
                Some(p) => Some(p),
                None => {
                    return None;
                },
            }
        },
    };
    assert(opt_int(found) == offset);
    match found {
        Some(pos) => {
            if pos > usize::MAX - 50 || query_len > usize::MAX - 50 - pos {
                return None;
            }
        },
        None => {},
    }
    let ghost span = excerpt_span(content@, query_len as int, offset);
    let (s, e): (usize, usize) = match found {
        Some(pos) => {
            let s: usize = if pos >= 50 {
                pos - 50
            } else {
                0
            };
            let far = pos + query_len + 50;
            let e: usize = if far < total {
                far
            } else {
                total
            };
            (s, e)
        },
        None => {
            let e: usize = if total < 100 {
                total
            } else {
                100
            };
            (0, e)
        },
    };
    assert(s == span.0 && e == span.1);
    if s > e {
        return None;
    }
    match char_at_byte(&v, s) {
        None => {
            return None;
        },
        Some(_) => {},
    }
    match char_at_byte(&v, e) {
        None => {
            return None;
        },
        Some(_) => {},
    }
    Some(excerpt_around(content, query_len, found))
}

} // verus!
