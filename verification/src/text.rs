//! Character-sequence utilities shared by the parsers, the chunker and the
//! prompt builders: searching, splitting, trimming, byte lengths and decimal
//! rendering, each stated over the `Seq<char>` view of a string.
use vstd::prelude::*;
use vstd::utf8::*;

verus! {

broadcast use vstd::seq::group_seq_axioms, vstd::utf8::group_utf8_lib;

// ---------------------------------------------------------------------------
// Conversions between strings and character vectors
// ---------------------------------------------------------------------------

/// The characters of `s`, in order (`str::chars` collected into a vector).
#[verifier::external_body]
pub fn chars_of(s: &str) -> (v: Vec<char>)
    ensures
        v@ == s@,
{
    s.chars().collect()
}

/// A string made of the characters `v`, in order (`Iterator::collect` into a `String`).
#[verifier::external_body]
pub fn string_from_chars(v: &[char]) -> (s: String)
    ensures
        s@ == v@,
{
    v.iter().collect()
}

/// The characters of `s` followed by those of `t`.
pub fn concat_str(s: &str, t: &str) -> (r: String)
    ensures
        r@ == s@ + t@,
{
    let mut r = String::from_str(s);
    r.append(t);
    r
}

/// Appends the characters of `t` to `v`.
pub fn push_str_chars(v: &mut Vec<char>, t: &str)
    ensures
        final(v)@ == old(v)@ + t@,
{
    let tv = chars_of(t);
    push_all(v, &tv);
}

/// Appends all of `t` to `v`.
pub fn push_all(v: &mut Vec<char>, t: &Vec<char>)
    ensures
        final(v)@ == old(v)@ + t@,
{
    let ghost v0 = v@;
    let mut i: usize = 0;
    while i < t.len()
        invariant
            i <= t.len(),
            v@ == v0 + t@.subrange(0, i as int),
        decreases t.len() - i,
    {
        v.push(t[i]);
        i = i + 1;
        assert(t@.subrange(0, i as int) == t@.subrange(0, i - 1) + seq![t@[i - 1]]);
    }
    assert(t@.subrange(0, t.len() as int) == t@);
}

/// A copy of `v[lo..hi]`.
pub fn copy_range(v: &Vec<char>, lo: usize, hi: usize) -> (r: Vec<char>)
    requires
        lo <= hi <= v.len(),
    ensures
        r@ == v@.subrange(lo as int, hi as int),
{
    let mut r: Vec<char> = Vec::new();
    let mut i: usize = lo;
    while i < hi
        invariant
            lo <= i <= hi <= v.len(),
            r@ == v@.subrange(lo as int, i as int),
        decreases hi - i,
    {
        r.push(v[i]);
        i = i + 1;
        assert(v@.subrange(lo as int, i as int) == v@.subrange(lo as int, i - 1) + seq![v@[i - 1]]);
    }
    r
}

/// Whether `a` and `b` hold the same characters.
pub fn chars_eq(a: &Vec<char>, b: &Vec<char>) -> (r: bool)
    ensures
        r == (a@ == b@),
{
    if a.len() != b.len() {
        return false;
    }
    let mut i: usize = 0;
    while i < a.len()
        invariant
            a.len() == b.len(),
            i <= a.len(),
            forall|k: int| 0 <= k < i ==> a@[k] == b@[k],
        decreases a.len() - i,
    {
        if a[i] != b[i] {
            return false;
        }
        i = i + 1;
    }
    assert(a@ =~= b@);
    true
}

/// Whether the strings `a` and `b` hold the same characters.
pub fn str_eq(a: &str, b: &str) -> (r: bool)
    ensures
        r == (a@ == b@),
{
    let av = chars_of(a);
    let bv = chars_of(b);
    chars_eq(&av, &bv)
}

/// What `str::to_lowercase` returns for `s`.
pub uninterp spec fn spec_lowercase(s: Seq<char>) -> Seq<char>;

/// `c` lowercased as ASCII: `A` to `Z` become `a` to `z`, every other
/// character stays.
pub open spec fn ascii_lower_char(c: char) -> char {
    if 'A' <= c && c <= 'Z' {
        ((c as u32) + 32) as char
    } else {
        c
    }
}

/// `s` lowercased as ASCII, character by character.
pub open spec fn ascii_lowercase(s: Seq<char>) -> Seq<char> {
    s.map_values(|c: char| ascii_lower_char(c))
}

/// Whether every character of `s` is ASCII.
pub open spec fn all_ascii(s: Seq<char>) -> bool {
    forall|i: int| 0 <= i < s.len() ==> (s[i] as u32) < 128
}

/// Calls `str::to_lowercase`. Claimed: the result is a function of `s`
/// alone (Unicode's lowercase mapping), named `spec_lowercase`; on ASCII text
/// that mapping lowercases `A` to `Z` one for one and keeps every other
/// character, as Unicode's data for those characters gives it. What it does
/// to other characters is left to the name.
#[verifier::external_body]
pub fn to_lowercase(s: &str) -> (r: String)
    ensures
        r@ == spec_lowercase(s@),
        all_ascii(s@) ==> r@ == ascii_lowercase(s@),
{
    s.to_lowercase()
}

// ---------------------------------------------------------------------------
// UTF-8 byte lengths
// ---------------------------------------------------------------------------

/// Number of bytes of the UTF-8 encoding of `s` (what `str::len` returns).
pub open spec fn utf8_len(s: Seq<char>) -> nat {
    encode_utf8(s).len()
}

/// The encoding of a concatenation is the concatenation of the encodings.
pub proof fn lemma_encode_concat(a: Seq<char>, b: Seq<char>)
    ensures
        encode_utf8(a + b) == encode_utf8(a) + encode_utf8(b),
    decreases a.len(),
{
    if a.len() == 0 {
        assert(a + b =~= b);
        assert(encode_utf8(a) =~= Seq::<u8>::empty());
        assert(encode_utf8(a) + encode_utf8(b) =~= encode_utf8(b));
    } else {
        lemma_encode_concat(a.drop_first(), b);
        assert((a + b).drop_first() =~= a.drop_first() + b);
        assert((a + b)[0] == a[0]);
        assert(encode_utf8(a + b) =~= encode_scalar(a[0] as u32) + encode_utf8(a.drop_first() + b));
        assert(encode_utf8(a) + encode_utf8(b) =~= encode_scalar(a[0] as u32) + (encode_utf8(a.drop_first()) + encode_utf8(b)));
    }
}

/// Byte lengths add up over a concatenation.
pub proof fn lemma_utf8_len_concat(a: Seq<char>, b: Seq<char>)
    ensures
        utf8_len(a + b) == utf8_len(a) + utf8_len(b),
{
    lemma_encode_concat(a, b);
}

/// A single character takes between one and four bytes.
pub proof fn lemma_utf8_len_single(c: char)
    ensures
        utf8_len(seq![c]) == char_utf8_len_spec(c),
        1 <= utf8_len(seq![c]) <= 4,
{
    assert(seq![c].drop_first() =~= Seq::<char>::empty());
    assert(encode_utf8(Seq::<char>::empty()) =~= Seq::<u8>::empty());
    assert(encode_utf8(seq![c]) =~= encode_scalar(c as u32) + encode_utf8(Seq::<char>::empty()));
}

/// Number of UTF-8 bytes of one character.
pub open spec fn char_utf8_len_spec(c: char) -> nat {
    encode_scalar(c as u32).len()
}

/// Number of UTF-8 bytes of one character (what `char::len_utf8` returns).
pub fn char_utf8_len(c: char) -> (n: usize)
    ensures
        n == utf8_len(seq![c]),
        1 <= n <= 4,
{
    proof {
        lemma_utf8_len_single(c);
    }
    let u = c as u32;
    if u <= 0x7f {
        1
    } else if u <= 0x7ff {
        2
    } else if u <= 0xffff {
        3
    } else {
        4
    }
}

/// A piece of a sequence is no longer, in bytes, than the sequence.
pub proof fn lemma_utf8_len_subrange(s: Seq<char>, i: int, j: int)
    requires
        0 <= i <= j <= s.len(),
    ensures
        utf8_len(s.subrange(i, j)) <= utf8_len(s),
{
    assert(s =~= s.subrange(0, i) + s.subrange(i, j) + s.subrange(j, s.len() as int));
    lemma_utf8_len_concat(s.subrange(0, i) + s.subrange(i, j), s.subrange(j, s.len() as int));
    lemma_utf8_len_concat(s.subrange(0, i), s.subrange(i, j));
}

/// Byte length of `v`, given that it fits in a `usize`.
pub fn utf8_len_of(v: &Vec<char>) -> (n: usize)
    requires
        utf8_len(v@) <= usize::MAX,
    ensures
        n == utf8_len(v@),
{
    let mut n: usize = 0;
    let mut i: usize = 0;
    while i < v.len()
        invariant
            i <= v.len(),
            n == utf8_len(v@.subrange(0, i as int)),
            utf8_len(v@) <= usize::MAX,
        decreases v.len() - i,
    {
        let c = v[i];
        let k = char_utf8_len(c);
        proof {
            assert(v@.subrange(0, i + 1) =~= v@.subrange(0, i as int) + seq![c]);
            lemma_utf8_len_concat(v@.subrange(0, i as int), seq![c]);
            lemma_utf8_len_subrange(v@, 0, i + 1);
        }
        n = n + k;
        i = i + 1;
    }
    assert(v@.subrange(0, v.len() as int) =~= v@);
    n
}

/// Whether byte offset `k` of the UTF-8 encoding of `s` falls between two of
/// its characters, or at either end (what `str::is_char_boundary` answers).
pub open spec fn is_char_boundary(s: Seq<char>, k: int) -> bool {
    exists|a: int| 0 <= a <= s.len() && #[trigger] utf8_len(s.subrange(0, a)) == k
}

/// The number of characters before byte offset `k`, at a boundary.
pub open spec fn char_index_of_byte(s: Seq<char>, k: int) -> int {
    choose|a: int| 0 <= a <= s.len() && #[trigger] utf8_len(s.subrange(0, a)) == k
}

/// A longer prefix takes more bytes.
pub proof fn lemma_prefix_len_strict(s: Seq<char>, i: int, j: int)
    requires
        0 <= i < j <= s.len(),
    ensures
        utf8_len(s.subrange(0, i)) < utf8_len(s.subrange(0, j)),
    decreases j - i,
{
    assert(s.subrange(0, j) =~= s.subrange(0, j - 1) + seq![s[j - 1]]);
    lemma_utf8_len_concat(s.subrange(0, j - 1), seq![s[j - 1]]);
    lemma_utf8_len_single(s[j - 1]);
    if i < j - 1 {
        lemma_prefix_len_strict(s, i, j - 1);
    }
}

/// Prefixes of equal byte length are the same prefix.
pub proof fn lemma_prefix_len_unique(s: Seq<char>, a: int, b: int)
    requires
        0 <= a <= s.len(),
        0 <= b <= s.len(),
        utf8_len(s.subrange(0, a)) == utf8_len(s.subrange(0, b)),
    ensures
        a == b,
{
    if a < b {
        lemma_prefix_len_strict(s, a, b);
    } else if b < a {
        lemma_prefix_len_strict(s, b, a);
    }
}

/// At a boundary, the character index is the one whose prefix has that many bytes.
pub proof fn lemma_char_index_of_byte(s: Seq<char>, a: int)
    requires
        0 <= a <= s.len(),
    ensures
        is_char_boundary(s, utf8_len(s.subrange(0, a)) as int),
        char_index_of_byte(s, utf8_len(s.subrange(0, a)) as int) == a,
{
    let k = utf8_len(s.subrange(0, a)) as int;
    assert(0 <= a <= s.len() && utf8_len(s.subrange(0, a)) == k);
    let b = char_index_of_byte(s, k);
    lemma_prefix_len_unique(s, a, b);
}

/// The byte length of the first `a` characters of `v`, when it fits.
pub fn utf8_len_upto(v: &Vec<char>, a: usize) -> (r: Option<usize>)
    requires
        a <= v.len(),
    ensures
        match r {
            Some(n) => n == utf8_len(v@.subrange(0, a as int)),
            None => utf8_len(v@.subrange(0, a as int)) > usize::MAX,
        },
{
    let mut n: usize = 0;
    let mut i: usize = 0;
    while i < a
        invariant
            i <= a <= v.len(),
            n == utf8_len(v@.subrange(0, i as int)),
        decreases a - i,
    {
        let c = v[i];
        let k = char_utf8_len(c);
        proof {
            assert(v@.subrange(0, i + 1) =~= v@.subrange(0, i as int) + seq![c]);
            lemma_utf8_len_concat(v@.subrange(0, i as int), seq![c]);
        }
        if n > usize::MAX - k {
            proof {
                if i + 1 < a {
                    lemma_prefix_len_strict(v@.subrange(0, a as int), i + 1, a as int);
                    assert(v@.subrange(0, a as int).subrange(0, i + 1) =~= v@.subrange(0, i + 1));
                    assert(v@.subrange(0, a as int).subrange(0, a as int) =~= v@.subrange(0, a as int));
                }
            }
            return None;
        }
        n = n + k;
        i = i + 1;
    }
    Some(n)
}

/// The number of characters of `v` before byte offset `k`, when `k` is a
/// boundary.
pub fn char_at_byte(v: &Vec<char>, k: usize) -> (r: Option<usize>)
    ensures
        match r {
            Some(a) => a <= v.len() && utf8_len(v@.subrange(0, a as int)) == k,
            None => !is_char_boundary(v@, k as int),
        },
{
    let mut off: usize = 0;
    let mut a: usize = 0;
    while a < v.len() && off < k
        invariant
            a <= v.len(),
            off <= k,
            off == utf8_len(v@.subrange(0, a as int)),
        decreases v.len() - a,
    {
        let c = v[a];
        let cl = char_utf8_len(c);
        proof {
            assert(v@.subrange(0, a + 1) =~= v@.subrange(0, a as int) + seq![c]);
            lemma_utf8_len_concat(v@.subrange(0, a as int), seq![c]);
        }
        if cl > k - off {
            proof {
                assert forall|b: int| 0 <= b <= v@.len() implies #[trigger] utf8_len(v@.subrange(0, b)) != k by {
                    if b <= a {
                        if b < a {
                            lemma_prefix_len_strict(v@, b, a as int);
                        }
                    } else if b > a + 1 {
                        lemma_prefix_len_strict(v@, a + 1, b);
                    }
                }
            }
            return None;
        }
        off = off + cl;
        a = a + 1;
    }
    if off == k {
        Some(a)
    } else {
        proof {
            assert(a == v.len());
            assert forall|b: int| 0 <= b <= v@.len() implies #[trigger] utf8_len(v@.subrange(0, b)) != k by {
                if b < a {
                    lemma_prefix_len_strict(v@, b, a as int);
                }
            }
        }
        None
    }
}

// ---------------------------------------------------------------------------
// White space
// ---------------------------------------------------------------------------

/// Unicode `White_Space`, the set that `char::is_whitespace` tests.
pub open spec fn white_space(c: char) -> bool {
    ||| ('\u{9}' <= c && c <= '\u{d}')
    ||| c == ' '
    ||| c == '\u{85}'
    ||| c == '\u{a0}'
    ||| c == '\u{1680}'
    ||| ('\u{2000}' <= c && c <= '\u{200a}')
    ||| c == '\u{2028}'
    ||| c == '\u{2029}'
    ||| c == '\u{202f}'
    ||| c == '\u{205f}'
    ||| c == '\u{3000}'
}

/// Whether `c` is white space in the sense of `char::is_whitespace`.
pub fn is_whitespace(c: char) -> (b: bool)
    ensures
        b == white_space(c),
{
    ('\u{9}' <= c && c <= '\u{d}') || c == ' ' || c == '\u{85}' || c == '\u{a0}' || c
        == '\u{1680}' || ('\u{2000}' <= c && c <= '\u{200a}') || c == '\u{2028}' || c
        == '\u{2029}' || c == '\u{202f}' || c == '\u{205f}' || c == '\u{3000}'
}

/// `s` without its leading white space.
pub open spec fn trim_start(s: Seq<char>) -> Seq<char>
    decreases s.len(),
{
    if s.len() > 0 && white_space(s[0]) {
        trim_start(s.drop_first())
    } else {
        s
    }
}

/// `s` without its trailing white space.
pub open spec fn trim_end(s: Seq<char>) -> Seq<char>
    decreases s.len(),
{
    if s.len() > 0 && white_space(s.last()) {
        trim_end(s.drop_last())
    } else {
        s
    }
}

/// `s` without leading and trailing white space (what `str::trim` returns).
pub open spec fn trim(s: Seq<char>) -> Seq<char> {
    trim_end(trim_start(s))
}

/// The bounds `(a, b)` of the trimmed part of `v[lo..hi]`.
pub fn trim_bounds(v: &Vec<char>, lo: usize, hi: usize) -> (r: (usize, usize))
    requires
        lo <= hi <= v.len(),
    ensures
        lo <= r.0 <= r.1 <= hi,
        v@.subrange(r.0 as int, r.1 as int) == trim(v@.subrange(lo as int, hi as int)),
{
    let mut a = lo;
    while a < hi && is_whitespace(v[a])
        invariant
            lo <= a <= hi <= v.len(),
            trim_start(v@.subrange(lo as int, hi as int)) == trim_start(v@.subrange(a as int, hi as int)),
        decreases hi - a,
    {
        assert(v@.subrange(a as int, hi as int).drop_first() =~= v@.subrange(a + 1, hi as int));
        a = a + 1;
    }
    let mut b = hi;
    while b > a && is_whitespace(v[b - 1])
        invariant
            lo <= a <= b <= hi <= v.len(),
            trim_end(v@.subrange(a as int, hi as int)) == trim_end(v@.subrange(a as int, b as int)),
        decreases b - a,
    {
        assert(v@.subrange(a as int, b as int).drop_last() =~= v@.subrange(a as int, b - 1));
        b = b - 1;
    }
    (a, b)
}

/// `v` trimmed of leading and trailing white space.
pub fn trim_chars(v: &Vec<char>) -> (r: Vec<char>)
    ensures
        r@ == trim(v@),
{
    let (a, b) = trim_bounds(v, 0, v.len());
    assert(v@.subrange(0, v.len() as int) =~= v@);
    copy_range(v, a, b)
}

/// `s` trimmed of leading and trailing white space, as a new string.
pub fn trim_string(s: &str) -> (r: String)
    ensures
        r@ == trim(s@),
{
    let v = chars_of(s);
    let t = trim_chars(&v);
    string_from_chars(t.as_slice())
}

/// Trimming never lengthens a sequence, in characters or in bytes.
pub proof fn lemma_trim_is_subrange(s: Seq<char>)
    ensures
        exists|i: int, j: int| 0 <= i <= j <= s.len() && trim(s) == s.subrange(i, j),
{
    lemma_trim_start_is_suffix(s);
    let i = choose|i: int| 0 <= i <= s.len() && trim_start(s) == s.subrange(i, s.len() as int);
    let t = trim_start(s);
    lemma_trim_end_is_prefix(t);
    let j = choose|j: int| 0 <= j <= t.len() && trim_end(t) == t.subrange(0, j);
    assert(trim(s) =~= s.subrange(i, i + j));
}

proof fn lemma_trim_start_is_suffix(s: Seq<char>)
    ensures
        exists|i: int| 0 <= i <= s.len() && trim_start(s) == s.subrange(i, s.len() as int),
    decreases s.len(),
{
    if s.len() > 0 && white_space(s[0]) {
        lemma_trim_start_is_suffix(s.drop_first());
        let i = choose|i: int|
            0 <= i <= s.drop_first().len() && trim_start(s.drop_first()) == s.drop_first().subrange(
                i,
                s.drop_first().len() as int,
            );
        assert(s.drop_first().subrange(i, s.drop_first().len() as int) =~= s.subrange(
            i + 1,
            s.len() as int,
        ));
    } else {
        assert(s.subrange(0, s.len() as int) =~= s);
    }
}

proof fn lemma_trim_end_is_prefix(s: Seq<char>)
    ensures
        exists|j: int| 0 <= j <= s.len() && trim_end(s) == s.subrange(0, j),
    decreases s.len(),
{
    if s.len() > 0 && white_space(s.last()) {
        lemma_trim_end_is_prefix(s.drop_last());
        let j = choose|j: int|
            0 <= j <= s.drop_last().len() && trim_end(s.drop_last()) == s.drop_last().subrange(0, j);
        assert(s.drop_last().subrange(0, j) =~= s.subrange(0, j));
    } else {
        assert(s.subrange(0, s.len() as int) =~= s);
    }
}

/// Whether `s` is not empty and neither starts nor ends with white space.
pub open spec fn ends_clean(s: Seq<char>) -> bool {
    s.len() > 0 && !white_space(s[0]) && !white_space(s.last())
}

/// A sequence that neither starts nor ends with white space is its own trim.
pub proof fn lemma_trim_of_clean(s: Seq<char>)
    requires
        ends_clean(s),
    ensures
        trim(s) == s,
{
    assert(trim_start(s) == s);
    assert(trim_end(s) == s);
}

proof fn lemma_trim_start_clean(s: Seq<char>)
    ensures
        trim_start(s).len() > 0 ==> !white_space(trim_start(s)[0]),
    decreases s.len(),
{
    if s.len() > 0 && white_space(s[0]) {
        lemma_trim_start_clean(s.drop_first());
    }
}

proof fn lemma_trim_end_clean(s: Seq<char>)
    ensures
        trim_end(s).len() > 0 ==> !white_space(trim_end(s).last()),
    decreases s.len(),
{
    if s.len() > 0 && white_space(s.last()) {
        lemma_trim_end_clean(s.drop_last());
    }
}

/// What trimming leaves is empty or neither starts nor ends with white space.
pub proof fn lemma_trim_clean(s: Seq<char>)
    ensures
        trim(s).len() == 0 || ends_clean(trim(s)),
{
    let u = trim_start(s);
    lemma_trim_start_clean(s);
    lemma_trim_end_clean(u);
    lemma_trim_end_is_prefix(u);
    let j = choose|j: int| 0 <= j <= u.len() && trim_end(u) == u.subrange(0, j);
    if trim(s).len() > 0 {
        assert(trim(s)[0] == u[0]);
    }
}

/// Trimming twice is trimming once.
pub proof fn lemma_trim_idempotent(s: Seq<char>)
    ensures
        trim(trim(s)) == trim(s),
{
    lemma_trim_clean(s);
    if trim(s).len() > 0 {
        lemma_trim_of_clean(trim(s));
    } else {
        assert(trim_start(trim(s)) == trim(s));
    }
}

// ---------------------------------------------------------------------------
// Searching
// ---------------------------------------------------------------------------

/// `pat` occurs in `s` starting at index `i`.
pub open spec fn occurs_at(s: Seq<char>, pat: Seq<char>, i: int) -> bool {
    0 <= i && i + pat.len() <= s.len() && s.subrange(i, i + pat.len()) == pat
}

/// The first index `i >= from` at which `pat` occurs in `s` (what `str::find`
/// returns on the suffix of `s` that starts at `from`, counted in characters).
pub open spec fn find_from(s: Seq<char>, pat: Seq<char>, from: int) -> Option<int>
    decreases s.len() + 1 - from,
{
    if from + pat.len() > s.len() {
        None
    } else if occurs_at(s, pat, from) {
        Some(from)
    } else {
        find_from(s, pat, from + 1)
    }
}

/// What `find_from` returns is an occurrence, the first one at or after `from`.
pub proof fn lemma_find_from(s: Seq<char>, pat: Seq<char>, from: int)
    ensures
        find_from(s, pat, from) matches Some(i) ==> {
            &&& from <= i
            &&& occurs_at(s, pat, i)
            &&& forall|k: int| from <= k < i ==> !occurs_at(s, pat, k)
        },
        find_from(s, pat, from) is None ==> forall|k: int| from <= k ==> !occurs_at(s, pat, k),
    decreases s.len() + 1 - from,
{
    if from + pat.len() > s.len() {
    } else if occurs_at(s, pat, from) {
    } else {
        lemma_find_from(s, pat, from + 1);
    }
}

/// Whether `pat` occurs in `s` at all (what `str::contains` answers).
pub open spec fn contains_seq(s: Seq<char>, pat: Seq<char>) -> bool {
    find_from(s, pat, 0) is Some
}

/// Whether `pat` occurs in `v` at index `i`.
pub fn matches_at(v: &Vec<char>, pat: &Vec<char>, i: usize) -> (b: bool)
    ensures
        b == occurs_at(v@, pat@, i as int),
{
    if pat.len() > v.len() || i > v.len() - pat.len() {
        return false;
    }
    let mut k: usize = 0;
    while k < pat.len()
        invariant
            i + pat.len() <= v.len(),
            k <= pat.len(),
            forall|m: int| 0 <= m < k ==> v@[i + m] == pat@[m],
        decreases pat.len() - k,
    {
        if v[i + k] != pat[k] {
            assert(v@.subrange(i as int, i + pat.len())[k as int] != pat@[k as int]);
            return false;
        }
        k = k + 1;
    }
    assert(v@.subrange(i as int, i + pat.len()) =~= pat@);
    true
}

/// The first occurrence of `pat` in `v` at or after `from`.
pub fn find_chars(v: &Vec<char>, pat: &Vec<char>, from: usize) -> (r: Option<usize>)
    ensures
        match r {
            Some(i) => find_from(v@, pat@, from as int) == Some(i as int),
            None => find_from(v@, pat@, from as int) is None,
        },
{
    let mut i = from;
    while i <= v.len() && pat.len() <= v.len() - i
        invariant
            from <= i,
            find_from(v@, pat@, from as int) == find_from(v@, pat@, i as int),
        decreases v.len() + 1 - i,
    {
        if matches_at(v, pat, i) {
            return Some(i);
        }
        assert(pat@.len() > 0) by {
            if pat@.len() == 0 {
                assert(v@.subrange(i as int, i as int) =~= pat@);
            }
        }
        i = i + 1;
    }
    None
}

/// Whether `pat` occurs in `v`.
pub fn contains_chars(v: &Vec<char>, pat: &Vec<char>) -> (b: bool)
    ensures
        b == contains_seq(v@, pat@),
{
    find_chars(v, pat, 0).is_some()
}

// ---------------------------------------------------------------------------
// Splitting
// ---------------------------------------------------------------------------

/// The pieces of `s[from..]` between the occurrences of `pat`, found left to
/// right without overlap (what `str::split` yields on that suffix).
pub open spec fn split_from(s: Seq<char>, pat: Seq<char>, from: int) -> Seq<Seq<char>>
    recommends
        pat.len() > 0,
    decreases s.len() - from,
    when pat.len() > 0 && 0 <= from <= s.len()
{
    match find_from(s, pat, from) {
        None => seq![s.subrange(from, s.len() as int)],
        Some(i) => {
            proof {
                lemma_find_from(s, pat, from);
            }
            seq![s.subrange(from, i)] + split_from(s, pat, i + pat.len())
        },
    }
}

/// The pieces of `s` between the occurrences of `pat` (what `str::split` yields).
pub open spec fn split(s: Seq<char>, pat: Seq<char>) -> Seq<Seq<char>> {
    split_from(s, pat, 0)
}

/// The views of a vector of character vectors.
pub open spec fn views(v: Seq<Vec<char>>) -> Seq<Seq<char>> {
    v.map_values(|p: Vec<char>| p@)
}

/// The pieces of `v` between the occurrences of `pat`.
pub fn split_chars(v: &Vec<char>, pat: &Vec<char>) -> (r: Vec<Vec<char>>)
    requires
        pat.len() > 0,
    ensures
        views(r@) == split(v@, pat@),
{
    let mut r: Vec<Vec<char>> = Vec::new();
    let mut pos: usize = 0;
    loop
        invariant
            pat.len() > 0,
            pos <= v.len(),
            split(v@, pat@) == views(r@) + split_from(v@, pat@, pos as int),
        decreases v.len() - pos,
    {
        proof {
            lemma_find_from(v@, pat@, pos as int);
        }
        match find_chars(v, pat, pos) {
            None => {
                let piece = copy_range(v, pos, v.len());
                let ghost before = views(r@);
                r.push(piece);
                assert(views(r@) =~= before.push(piece@));
                assert(split(v@, pat@) =~= views(r@));
                return r;
            },
            Some(i) => {
                let piece = copy_range(v, pos, i);
                let ghost before = views(r@);
                r.push(piece);
                assert(views(r@) =~= before.push(piece@));
                assert(split_from(v@, pat@, pos as int) == seq![piece@] + split_from(
                    v@,
                    pat@,
                    i + pat.len(),
                ));
                assert(before + split_from(v@, pat@, pos as int) =~= before.push(piece@)
                    + split_from(v@, pat@, i + pat.len()));
                pos = i + pat.len();
            },
        }
    }
}

/// The index of the first white-space character of `s` at or after `from`.
pub open spec fn find_ws_from(s: Seq<char>, from: int) -> Option<int>
    decreases s.len() - from,
{
    if from < 0 || from >= s.len() {
        None
    } else if white_space(s[from]) {
        Some(from)
    } else {
        find_ws_from(s, from + 1)
    }
}

pub proof fn lemma_find_ws_from(s: Seq<char>, from: int)
    ensures
        find_ws_from(s, from) matches Some(i) ==> from <= i < s.len() && white_space(s[i]) && forall|
            k: int,
        | from <= k < i ==> !white_space(s[k]),
        find_ws_from(s, from) is None && from >= 0 ==> forall|k: int|
            from <= k < s.len() ==> !white_space(s[k]),
    decreases s.len() - from,
{
    if from < 0 || from >= s.len() {
    } else if white_space(s[from]) {
    } else {
        lemma_find_ws_from(s, from + 1);
    }
}

/// The maximal runs of non-white-space characters of `s[from..]`, in order
/// (what `str::split_whitespace` yields on that suffix).
pub open spec fn words_from(s: Seq<char>, from: int) -> Seq<Seq<char>>
    decreases s.len() - from,
    when 0 <= from <= s.len()
{
    match find_ws_from(s, from) {
        None => if from < s.len() {
            seq![s.subrange(from, s.len() as int)]
        } else {
            seq![]
        },
        Some(i) => {
            proof {
                lemma_find_ws_from(s, from);
            }
            (if from < i {
                seq![s.subrange(from, i)]
            } else {
                seq![]
            }) + words_from(s, i + 1)
        },
    }
}

/// The words of `s`: its maximal runs of non-white-space characters.
pub open spec fn words(s: Seq<char>) -> Seq<Seq<char>> {
    words_from(s, 0)
}

/// The words of `v`.
pub fn words_of(v: &Vec<char>) -> (r: Vec<Vec<char>>)
    ensures
        views(r@) == words(v@),
{
    let mut r: Vec<Vec<char>> = Vec::new();
    let mut start: usize = 0;
    let mut i: usize = 0;
    // `start..i` is a run of non-white-space characters
    while i < v.len()
        invariant
            start <= i <= v.len(),
            forall|k: int| start <= k < i ==> !white_space(v@[k]),
            words(v@) == views(r@) + words_from(v@, start as int),
        decreases v.len() - i,
    {
        if is_whitespace(v[i]) {
            proof {
                lemma_find_ws_from(v@, start as int);
                lemma_find_ws_from(v@, i as int);
                assert(find_ws_from(v@, start as int) == Some(i as int)) by {
                    lemma_find_ws_first(v@, start as int, i as int);
                }
            }
            let ghost before = views(r@);
            if start < i {
                let piece = copy_range(v, start, i);
                r.push(piece);
                assert(views(r@) =~= before.push(piece@));
                assert(before + words_from(v@, start as int) =~= views(r@) + words_from(
                    v@,
                    i + 1,
                ));
            } else {
                assert(before + words_from(v@, start as int) =~= views(r@) + words_from(
                    v@,
                    i + 1,
                ));
            }
            start = i + 1;
        }
        i = i + 1;
    }
    proof {
        lemma_find_ws_none(v@, start as int);
    }
    if start < v.len() {
        let piece = copy_range(v, start, v.len());
        let ghost before = views(r@);
        r.push(piece);
        assert(views(r@) =~= before.push(piece@));
        assert(words(v@) =~= views(r@));
    } else {
        assert(words(v@) =~= views(r@));
    }
    r
}

proof fn lemma_find_ws_first(s: Seq<char>, from: int, i: int)
    requires
        0 <= from <= i < s.len(),
        white_space(s[i]),
        forall|k: int| from <= k < i ==> !white_space(s[k]),
    ensures
        find_ws_from(s, from) == Some(i),
    decreases i - from,
{
    if from < i {
        lemma_find_ws_first(s, from + 1, i);
    }
}

proof fn lemma_find_ws_none(s: Seq<char>, from: int)
    requires
        0 <= from <= s.len(),
        forall|k: int| from <= k < s.len() ==> !white_space(s[k]),
    ensures
        find_ws_from(s, from) is None,
    decreases s.len() - from,
{
    if from < s.len() {
        lemma_find_ws_none(s, from + 1);
    }
}

/// The words of `s[from + k..]` are those of the suffix `s[from..]` taken on
/// its own, from its index `k`.
pub proof fn lemma_words_from_shift(s: Seq<char>, from: int, k: int)
    requires
        0 <= from,
        0 <= k,
        from + k <= s.len(),
    ensures
        words_from(s, from + k) == words_from(s.subrange(from, s.len() as int), k),
    decreases s.len() - from - k,
{
    let t = s.subrange(from, s.len() as int);
    lemma_find_ws_from(s, from + k);
    match find_ws_from(s, from + k) {
        None => {
            assert forall|j: int| k <= j < t.len() implies !white_space(t[j]) by {
                assert(t[j] == s[from + j]);
            }
            lemma_find_ws_none(t, k);
            assert(s.subrange(from + k, s.len() as int) =~= t.subrange(k, t.len() as int));
        },
        Some(i) => {
            assert(t[i - from] == s[i]);
            assert forall|j: int| k <= j < i - from implies !white_space(t[j]) by {
                assert(t[j] == s[from + j]);
            }
            lemma_find_ws_first(t, k, i - from);
            lemma_words_from_shift(s, from, i + 1 - from);
            assert(s.subrange(from + k, i) =~= t.subrange(k, i - from));
        },
    }
}

/// Cutting `s` at a white-space character at index `m`: the words of
/// `s[from..]` are those of `s[from..m]` followed by those of `s[m + 1..]`.
pub proof fn lemma_words_from_cut(s: Seq<char>, from: int, m: int)
    requires
        0 <= from <= m < s.len(),
        white_space(s[m]),
    ensures
        words_from(s, from) == words_from(s.subrange(0, m), from) + words_from(s, m + 1),
    decreases m - from,
{
    let p = s.subrange(0, m);
    lemma_find_ws_from(s, from);
    let i = find_ws_from(s, from)->0;
    assert(i <= m);
    let head = if from < i {
        seq![s.subrange(from, i)]
    } else {
        Seq::<Seq<char>>::empty()
    };
    assert(words_from(s, from) == head + words_from(s, i + 1));
    if i == m {
        assert forall|j: int| from <= j < p.len() implies !white_space(p[j]) by {
            assert(p[j] == s[j]);
        }
        lemma_find_ws_none(p, from);
        if from < m {
            assert(p.subrange(from, m) =~= s.subrange(from, m));
        }
        assert(words_from(p, from) =~= head);
    } else {
        assert(p[i] == s[i]);
        assert forall|j: int| from <= j < i implies !white_space(p[j]) by {
            assert(p[j] == s[j]);
        }
        lemma_find_ws_first(p, from, i);
        lemma_words_from_cut(s, i + 1, m);
        if from < i {
            assert(p.subrange(from, i) =~= s.subrange(from, i));
        }
        assert(words_from(p, from) == head + words_from(p, i + 1));
        assert(words_from(s, from) =~= words_from(p, from) + words_from(s, m + 1));
    }
}

/// White space at `s[a..b]` holds no word: the words of `s[a..]` and of
/// `s[b..]` are the same.
pub proof fn lemma_words_skip(s: Seq<char>, a: int, b: int)
    requires
        0 <= a <= b <= s.len(),
        forall|k: int| a <= k < b ==> white_space(#[trigger] s[k]),
    ensures
        words_from(s, a) == words_from(s, b),
    decreases b - a,
{
    if a < b {
        lemma_words_from_cut(s, a, a);
        assert(words_from(s.subrange(0, a), a) =~= Seq::<Seq<char>>::empty());
        lemma_words_skip(s, a + 1, b);
    }
}

/// A text with no characters has no words.
pub proof fn lemma_words_empty()
    ensures
        words(Seq::<char>::empty()) == Seq::<Seq<char>>::empty(),
{
    assert(words(Seq::<char>::empty()) =~= Seq::<Seq<char>>::empty());
}

/// White space between two texts separates their words: the words of
/// `a + sep + b` are those of `a` followed by those of `b`.
pub proof fn lemma_words_join(a: Seq<char>, sep: Seq<char>, b: Seq<char>)
    requires
        sep.len() > 0,
        forall|j: int| 0 <= j < sep.len() ==> white_space(#[trigger] sep[j]),
    ensures
        words(a + sep + b) == words(a) + words(b),
{
    let s = a + sep + b;
    let m = a.len() as int;
    assert(s[m] == sep[0]);
    lemma_words_from_cut(s, 0, m);
    assert(s.subrange(0, m) =~= a);
    assert forall|k: int| m + 1 <= k < m + sep.len() implies white_space(#[trigger] s[k]) by {
        assert(s[k] == sep[k - m]);
    }
    lemma_words_skip(s, m + 1, m + sep.len());
    lemma_words_from_shift(s, m + sep.len(), 0);
    assert(s.subrange(m + sep.len(), s.len() as int) =~= b);
}

/// A non-empty text without white space is a single word.
pub proof fn lemma_words_single(w: Seq<char>)
    requires
        w.len() > 0,
        forall|i: int| 0 <= i < w.len() ==> !white_space(#[trigger] w[i]),
    ensures
        words(w) == seq![w],
{
    lemma_find_ws_none(w, 0);
    assert(w.subrange(0, w.len() as int) =~= w);
}

proof fn lemma_words_trim_start(s: Seq<char>)
    ensures
        words(trim_start(s)) == words(s),
    decreases s.len(),
{
    if s.len() > 0 && white_space(s[0]) {
        lemma_words_trim_start(s.drop_first());
        lemma_words_join(Seq::<char>::empty(), seq![s[0]], s.drop_first());
        assert(Seq::<char>::empty() + seq![s[0]] + s.drop_first() =~= s);
        lemma_words_empty();
        assert(Seq::<Seq<char>>::empty() + words(s.drop_first()) =~= words(s.drop_first()));
    }
}

proof fn lemma_words_trim_end(s: Seq<char>)
    ensures
        words(trim_end(s)) == words(s),
    decreases s.len(),
{
    if s.len() > 0 && white_space(s.last()) {
        lemma_words_trim_end(s.drop_last());
        lemma_words_join(s.drop_last(), seq![s.last()], Seq::<char>::empty());
        assert(s.drop_last() + seq![s.last()] + Seq::<char>::empty() =~= s);
        lemma_words_empty();
        assert(words(s.drop_last()) + Seq::<Seq<char>>::empty() =~= words(s.drop_last()));
    }
}

/// Trimming keeps the words.
pub proof fn lemma_words_trim(s: Seq<char>)
    ensures
        words(trim(s)) == words(s),
{
    lemma_words_trim_start(s);
    lemma_words_trim_end(trim_start(s));
}

// ---------------------------------------------------------------------------
// Decimal rendering
// ---------------------------------------------------------------------------

/// The decimal digit for `d < 10`.
pub open spec fn digit_char(d: nat) -> char {
    if d == 0 {
        '0'
    } else if d == 1 {
        '1'
    } else if d == 2 {
        '2'
    } else if d == 3 {
        '3'
    } else if d == 4 {
        '4'
    } else if d == 5 {
        '5'
    } else if d == 6 {
        '6'
    } else if d == 7 {
        '7'
    } else if d == 8 {
        '8'
    } else {
        '9'
    }
}

/// The decimal rendering of `n` without leading zeros (what `{}` prints for an integer).
pub open spec fn decimal(n: nat) -> Seq<char>
    decreases n,
{
    if n < 10 {
        seq![digit_char(n)]
    } else {
        decimal(n / 10).push(digit_char(n % 10))
    }
}

fn digit_of(d: u64) -> (c: char)
    requires
        d < 10,
    ensures
        c == digit_char(d as nat),
{
    if d == 0 {
        '0'
    } else if d == 1 {
        '1'
    } else if d == 2 {
        '2'
    } else if d == 3 {
        '3'
    } else if d == 4 {
        '4'
    } else if d == 5 {
        '5'
    } else if d == 6 {
        '6'
    } else if d == 7 {
        '7'
    } else if d == 8 {
        '8'
    } else {
        '9'
    }
}

/// Appends the decimal rendering of `n` to `out`.
pub fn push_decimal(out: &mut Vec<char>, n: u64)
    ensures
        final(out)@ == old(out)@ + decimal(n as nat),
    decreases n,
{
    if n >= 10 {
        push_decimal(out, n / 10);
    }
    out.push(digit_of(n % 10));
    proof {
        if n >= 10 {
            assert(decimal(n as nat) == decimal((n / 10) as nat).push(digit_char((n % 10) as nat)));
        }
    }
}

/// The decimal rendering of `n` as a string.
pub fn decimal_string(n: u64) -> (s: String)
    ensures
        s@ == decimal(n as nat),
{
    let mut v: Vec<char> = Vec::new();
    push_decimal(&mut v, n);
    assert(v@ =~= decimal(n as nat));
    string_from_chars(v.as_slice())
}

} // verus!
