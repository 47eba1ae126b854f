//! Downloads of GGUF models from HuggingFace: where a file is fetched from,
//! whether a partial file is resumed, how the received bytes are counted, and
//! whether a file matches its SHA-256 checksum.
use vstd::prelude::*;

use sha2::{Digest, Sha256};

use crate::json::hex_digit;
use crate::rag::parsers::{path_extension, path_extension_spec};
use crate::text::{chars_of, decimal, digit_char, push_decimal, push_str_chars, str_eq, string_from_chars};

verus! {

/// Where a download stands.
pub enum DownloadStatus {
    Pending,
    Downloading,
    Verifying,
    Complete,
    Failed(String),
    Paused,
}

/// The URL of `filename` in the HuggingFace repository `repo`.
pub open spec fn hf_file_url(repo: Seq<char>, filename: Seq<char>) -> Seq<char> {
    "https://huggingface.co/"@ + repo + "/resolve/main/"@ + filename
}

/// The URL of `filename` in the HuggingFace repository `repo`.
pub fn hf_download_url(repo: &str, filename: &str) -> (r: String)
    ensures
        r@ == hf_file_url(repo@, filename@),
{
    let mut v: Vec<char> = Vec::new();
    push_str_chars(&mut v, "https://huggingface.co/");
    push_str_chars(&mut v, repo);
    push_str_chars(&mut v, "/resolve/main/");
    push_str_chars(&mut v, filename);
    string_from_chars(v.as_slice())
}

/// What to do with what is already on disk.
pub enum DownloadPlan {
    /// The file is whole: nothing to fetch.
    Complete,
    /// Fetch the rest, asking for it with this `Range` header value, and
    /// append it to the file.
    Resume(String),
    /// Fetch the whole file into a new one.
    Fresh,
}

/// The `Range` header value that asks for everything from byte `from` on.
pub open spec fn range_from(from: nat) -> Seq<char> {
    "bytes="@ + decimal(from) + "-"@
}

/// Whether a file of `existing` bytes is the whole of one of `total` bytes
/// (a total of 0 means the size is unknown).
pub open spec fn already_complete(existing: u64, total: u64) -> bool {
    existing == total && total > 0
}

/// The plan for a file of which `existing_size` bytes are on disk and whose
/// size the server gave as `total_size`: done when they agree, resumed when
/// something is there, fetched whole otherwise.
pub fn plan_download(existing_size: u64, total_size: u64) -> (r: DownloadPlan)
    ensures
        already_complete(existing_size, total_size) ==> r is Complete,
        !already_complete(existing_size, total_size) && existing_size > 0 ==> (r matches DownloadPlan::Resume(h)
            && h@ == range_from(existing_size as nat)),
        !already_complete(existing_size, total_size) && existing_size == 0 ==> r is Fresh,
{
    if existing_size == total_size && total_size > 0 {
        DownloadPlan::Complete
    } else if existing_size > 0 {
        let mut v: Vec<char> = Vec::new();
        push_str_chars(&mut v, "bytes=");
        push_decimal(&mut v, existing_size);
        push_str_chars(&mut v, "-");
        DownloadPlan::Resume(string_from_chars(v.as_slice()))
    } else {
        DownloadPlan::Fresh
    }
}

/// Whether a download response with HTTP status `status` is used: any success
/// status, partial content among them.
pub fn response_accepted(status: u16) -> (r: bool)
    ensures
        r == ((200 <= status && status < 300) || status == 206),
{
    (200 <= status && status < 300) || status == 206
}

// ---------------------------------------------------------------------------
// Content length
// ---------------------------------------------------------------------------

/// Whether `c` is an ASCII decimal digit.
pub open spec fn is_digit(c: char) -> bool {
    '0' <= c && c <= '9'
}

/// The value of a run of decimal digits.
pub open spec fn digits_value(s: Seq<char>) -> nat
    decreases s.len(),
{
    if s.len() == 0 {
        0
    } else {
        digits_value(s.drop_last()) * 10 + ((s.last() as u32 - '0' as u32) as nat)
    }
}

/// The digits of an unsigned number: what follows an optional leading `+`.
pub open spec fn unsigned_digits(s: Seq<char>) -> Seq<char> {
    if s.len() > 0 && s[0] == '+' {
        s.drop_first()
    } else {
        s
    }
}

/// What `str::parse::<u64>` gives for `s`, as the standard library documents
/// it: an optional `+` followed by at least one digit and nothing else, whose
/// value fits in 64 bits.
pub open spec fn parse_u64_spec(s: Seq<char>) -> Option<u64> {
    let d = unsigned_digits(s);
    if d.len() > 0 && (forall|i: int| 0 <= i < d.len() ==> is_digit(#[trigger] d[i])) && digits_value(d)
        <= u64::MAX {
        Some(digits_value(d) as u64)
    } else {
        None
    }
}

/// A longer run of digits is worth at least as much as its prefix.
proof fn lemma_digits_value_prefix(s: Seq<char>, j: int)
    requires
        0 <= j <= s.len(),
        forall|i: int| 0 <= i < s.len() ==> is_digit(#[trigger] s[i]),
    ensures
        digits_value(s.subrange(0, j)) <= digits_value(s),
    decreases s.len() - j,
{
    if j < s.len() {
        lemma_digits_value_prefix(s, j + 1);
        let p = s.subrange(0, j + 1);
        assert(p.drop_last() =~= s.subrange(0, j));
    } else {
        assert(s.subrange(0, j) =~= s);
    }
}

/// Parses an unsigned 64-bit decimal number as `str::parse::<u64>` does.
pub fn parse_u64(s: &str) -> (r: Option<u64>)
    ensures
        r == parse_u64_spec(s@),
{
    let v = chars_of(s);
    let mut i: usize = 0;
    if v.len() > 0 && v[0] == '+' {
        i = 1;
    }
    let ghost start = i as int;
    let ghost d = unsigned_digits(s@);
    assert(d =~= v@.subrange(start, v@.len() as int));
    if i >= v.len() {
        return None;
    }
    let mut acc: u64 = 0;
    while i < v.len()
        invariant
            0 <= start <= 1,
            start <= i <= v.len(),
            v@ == s@,
            d == unsigned_digits(s@),
            d == v@.subrange(start, v@.len() as int),
            d.len() > 0,
            forall|k: int| 0 <= k < i - start ==> is_digit(#[trigger] d[k]),
            acc == digits_value(d.subrange(0, i - start)),
        decreases v.len() - i,
    {
        let c = v[i];
        if !('0' <= c && c <= '9') {
            assert(!is_digit(d[i - start]));
            return None;
        }
        let digit: u64 = (c as u32 - '0' as u32) as u64;
        let ghost next = d.subrange(0, i - start + 1);
        assert(next.drop_last() =~= d.subrange(0, i - start));
        assert(next.last() == c);
        if acc > (u64::MAX - digit) / 10 {
            proof {
                assert(digits_value(next) > u64::MAX) by (nonlinear_arith)
                    requires
                        acc > (u64::MAX - digit) / 10,
                        digits_value(next) == acc * 10 + digit,
                        digit <= 9,
                ;
                if forall|k: int| 0 <= k < d.len() ==> is_digit(#[trigger] d[k]) {
                    lemma_digits_value_prefix(d, i - start + 1);
                }
            }
            return None;
        }
        assert(acc * 10 + digit <= u64::MAX) by (nonlinear_arith)
            requires
                acc <= (u64::MAX - digit) / 10,
                digit <= 9,
        ;
        acc = acc * 10 + digit;
        i = i + 1;
    }
    assert(d.subrange(0, i - start) =~= d);
    Some(acc)
}

/// The value of a decimal digit.
proof fn lemma_digit_value(d: nat)
    requires
        d < 10,
    ensures
        is_digit(digit_char(d)),
        (digit_char(d) as u32 - '0' as u32) as nat == d,
{
}

/// The decimal rendering of `n` is a run of digits worth `n`.
proof fn lemma_decimal_digits(n: nat)
    ensures
        decimal(n).len() > 0,
        forall|i: int| 0 <= i < decimal(n).len() ==> is_digit(#[trigger] decimal(n)[i]),
        digits_value(decimal(n)) == n,
    decreases n,
{
    if n < 10 {
        lemma_digit_value(n);
        assert(decimal(n).drop_last() =~= Seq::<char>::empty());
        assert(digits_value(Seq::<char>::empty()) == 0);
    } else {
        lemma_decimal_digits(n / 10);
        lemma_digit_value(n % 10);
        let d = decimal(n);
        assert(d.drop_last() =~= decimal(n / 10));
        assert(d.last() == digit_char(n % 10));
        assert((n / 10) * 10 + n % 10 == n) by (nonlinear_arith);
        assert forall|i: int| 0 <= i < d.len() implies is_digit(#[trigger] d[i]) by {
            if i < d.len() - 1 {
                assert(d[i] == decimal(n / 10)[i]);
            }
        }
    }
}

/// A number written in decimal reads back as itself: what `decimal_string`
/// writes, `parse_u64` parses to the same number.
pub proof fn lemma_parse_decimal(n: u64)
    ensures
        parse_u64_spec(decimal(n as nat)) == Some(n),
{
    lemma_decimal_digits(n as nat);
    assert(decimal(n as nat)[0] != '+');
    assert(unsigned_digits(decimal(n as nat)) == decimal(n as nat));
}

/// The size that a `Content-Length` header value gives: its number, or 0 when
/// there is no header or it is not a number.
pub open spec fn content_length_spec(header: Option<Seq<char>>) -> u64 {
    match header {
        Some(h) => match parse_u64_spec(h) {
            Some(n) => n,
            None => 0,
        },
        None => 0,
    }
}

/// The size of the file from its `Content-Length` header value.
pub fn content_length(header: Option<&str>) -> (r: u64)
    ensures
        r == content_length_spec(
            match header {
                Some(h) => Some(h@),
                None => None,
            },
        ),
{
    match header {
        Some(h) => match parse_u64(h) {
            Some(n) => n,
            None => 0,
        },
        None => 0,
    }
}

// ---------------------------------------------------------------------------
// Counting the bytes
// ---------------------------------------------------------------------------

/// The byte count of a download: what was on disk when it began, what is on
/// disk now, and the size of the whole file.
pub struct DownloadCounter {
    existing: u64,
    downloaded: u64,
    total: u64,
}

impl DownloadCounter {
    pub closed spec fn spec_existing(&self) -> u64 {
        self.existing
    }

    pub closed spec fn spec_downloaded(&self) -> u64 {
        self.downloaded
    }

    pub closed spec fn spec_total(&self) -> u64 {
        self.total
    }

    /// Nothing is ever uncounted: the count starts at what was on disk.
    pub closed spec fn wf(&self) -> bool {
        self.existing <= self.downloaded
    }

    /// A count that starts from the `existing_size` bytes already on disk.
    pub fn new(existing_size: u64, total_size: u64) -> (r: Self)
        ensures
            r.wf(),
            r.spec_existing() == existing_size,
            r.spec_downloaded() == existing_size,
            r.spec_total() == total_size,
    {
        DownloadCounter { existing: existing_size, downloaded: existing_size, total: total_size }
    }

    /// Counts a received piece of `len` bytes.
    pub fn record(&mut self, len: usize)
        requires
            old(self).wf(),
            old(self).spec_downloaded() + len <= u64::MAX,
        ensures
            final(self).wf(),
            final(self).spec_downloaded() == old(self).spec_downloaded() + len,
            final(self).spec_existing() == old(self).spec_existing(),
            final(self).spec_total() == old(self).spec_total(),
    {
        self.downloaded = self.downloaded + len as u64;
    }

    /// The bytes on disk.
    pub fn downloaded(&self) -> (r: u64)
        ensures
            r == self.spec_downloaded(),
    {
        self.downloaded
    }

    /// The size of the whole file.
    pub fn total(&self) -> (r: u64)
        ensures
            r == self.spec_total(),
    {
        self.total
    }

    /// The bytes received in this session (what the speed is measured on).
    pub fn transferred(&self) -> (r: u64)
        requires
            self.wf(),
        ensures
            r == self.spec_downloaded() - self.spec_existing(),
    {
        self.downloaded - self.existing
    }

    /// The bytes still to come, 0 once the count reaches the total.
    pub fn remaining(&self) -> (r: u64)
        ensures
            r == (if self.spec_total() > self.spec_downloaded() {
                self.spec_total() - self.spec_downloaded()
            } else {
                0
            }),
    {
        if self.total > self.downloaded {
            self.total - self.downloaded
        } else {
            0
        }
    }
}

// ---------------------------------------------------------------------------
// Checksums
// ---------------------------------------------------------------------------

/// The SHA-256 digest of `data`.
pub uninterp spec fn spec_sha256(data: Seq<u8>) -> Seq<u8>;

/// Hashes `data` with `sha2::Sha256` (`new`, `update`, `finalize`). Claimed:
/// the digest is a function of `data` alone, named `spec_sha256`, and has the
/// 32 bytes of the type `finalize` returns.
#[verifier::external_body]
fn sha256_digest(data: &[u8]) -> (r: Vec<u8>)
    ensures
        r@ == spec_sha256(data@),
        r@.len() == 32,
{
    let mut hasher = Sha256::new();
    hasher.update(data);
    hasher.finalize().to_vec()
}

/// Lower-case hexadecimal of `bytes`, two digits per byte, the high half first.
pub open spec fn hex_lower(bytes: Seq<u8>) -> Seq<char>
    decreases bytes.len(),
{
    if bytes.len() == 0 {
        seq![]
    } else {
        seq![hex_digit((bytes[0] / 16) as nat), hex_digit((bytes[0] % 16) as nat)] + hex_lower(
            bytes.drop_first(),
        )
    }
}

/// Calls `hex::encode`. Claimed, as its source shows (the table
/// `0123456789abcdef`, indexed by `byte >> 4` and then `byte & 0x0F`): the
/// lower-case hexadecimal `hex_lower` of `bytes`.
#[verifier::external_body]
fn hex_encode(bytes: &[u8]) -> (r: String)
    ensures
        r@ == hex_lower(bytes@),
{
    hex::encode(bytes)
}

/// The lower-case hexadecimal SHA-256 of `data`.
pub open spec fn sha256_hex(data: Seq<u8>) -> Seq<char> {
    hex_lower(spec_sha256(data))
}

/// The lower-case hexadecimal SHA-256 of `data`.
pub fn sha256_hex_of(data: &[u8]) -> (r: String)
    ensures
        r@ == sha256_hex(data@),
        r@.len() == 64,
{
    let digest = sha256_digest(data);
    proof {
        lemma_hex_lower_len(digest@);
    }
    hex_encode(digest.as_slice())
}

/// Two digits per byte.
pub proof fn lemma_hex_lower_len(bytes: Seq<u8>)
    ensures
        hex_lower(bytes).len() == 2 * bytes.len(),
    decreases bytes.len(),
{
    if bytes.len() > 0 {
        lemma_hex_lower_len(bytes.drop_first());
    }
}

/// Whether the content `data` of a downloaded file has the SHA-256 `expected`
/// (lower-case hexadecimal, compared exactly).
pub fn verify_sha256(data: &[u8], expected: &str) -> (r: bool)
    ensures
        r == (sha256_hex(data@) == expected@),
{
    let hash = sha256_hex_of(data);
    str_eq(hash.as_str(), expected)
}

/// Whether `path` names a GGUF model file: its extension is exactly `gguf`.
pub fn is_gguf_path(path: &str) -> (r: bool)
    ensures
        r == (path_extension_spec(path@) == Some("gguf"@)),
{
    match path_extension(path) {
        Some(e) => str_eq(e.as_str(), "gguf"),
        None => false,
    }
}

} // verus!
