//! Document identity and file naming.
//!
//! A document's identity must be stable and unique per distinct source
//! document, so that cache keys survive repeated requests.  Identities are
//! derived from the source URL: either from its last path segment, turned
//! into a safe file name, or -- where the path carries no usable name --
//! from a 64-bit FNV-1a hash of the whole URL, printed in hexadecimal.
//!
//! The one step the library does not compute itself is URL parsing, which
//! is the `url` crate's job; everything decided on top of the parsed
//! segment is verified here.

use vstd::prelude::*;

use vstd::utf8::encode_utf8;

use crate::client::{hex_digit, hex_digit_exec};
use crate::text::{chars_eq, chars_to_string, lower_char, string_to_chars, to_lower};

verus! {

/// The FNV-1a offset basis.
pub const FNV_OFFSET: u64 = 0xcbf29ce484222325;

/// The FNV-1a prime.
pub const FNV_PRIME: u64 = 0x100000001b3;

/// The 64-bit FNV-1a hash of a byte sequence.
pub open spec fn fnv1a(bytes: Seq<u8>) -> u64
    decreases bytes.len(),
{
    if bytes.len() == 0 {
        FNV_OFFSET
    } else {
        let h = fnv1a(bytes.drop_last()) ^ (bytes.last() as u64);
        (((h as nat) * (FNV_PRIME as nat)) % 0x1_0000_0000_0000_0000nat) as u64
    }
}

/// The hexadecimal digits of `n`, lower case, no leading zeroes.
pub open spec fn hex_chars(n: int) -> Seq<char>
    recommends
        n >= 0,
    decreases n,
    when n >= 0
{
    if n < 16 {
        seq![hex_digit(n)]
    } else {
        hex_chars(n / 16) + seq![hex_digit(n % 16)]
    }
}

/// The identity hash of a URL: FNV-1a over its UTF-8 bytes, in hex.
pub open spec fn spec_hash_url(s: Seq<char>) -> Seq<char> {
    hex_chars(fnv1a(encode_utf8(s)) as int)
}

fn fnv1a_exec(bytes: &[u8]) -> (r: u64)
    ensures
        r == fnv1a(bytes@),
{
    let mut h: u64 = FNV_OFFSET;
    let mut i: usize = 0;
    proof {
        assert(bytes@.take(0) =~= Seq::<u8>::empty());
    }
    while i < bytes.len()
        invariant
            0 <= i <= bytes@.len(),
            h == fnv1a(bytes@.take(i as int)),
        decreases bytes@.len() - i,
    {
        let x = h ^ (bytes[i] as u64);
        proof {
            assert(bytes@.take(i + 1 as int).drop_last() =~= bytes@.take(i as int));
            assert(bytes@.take(i + 1 as int).last() == bytes@[i as int]);
        }
        h = x.wrapping_mul(FNV_PRIME);
        proof {
            assert(h == (((x as nat) * (FNV_PRIME as nat)) % 0x1_0000_0000_0000_0000nat) as u64);
        }
        i = i + 1;
    }
    proof {
        assert(bytes@.take(bytes@.len() as int) =~= bytes@);
    }
    h
}

fn push_hex(n: u64, out: &mut Vec<char>)
    ensures
        final(out)@ == old(out)@ + hex_chars(n as int),
    decreases n,
{
    if n < 16 {
        out.push(hex_digit_exec(n as u32));
        proof {
            assert(out@ =~= old(out)@ + hex_chars(n as int));
        }
    } else {
        push_hex(n / 16, out);
        out.push(hex_digit_exec((n % 16) as u32));
        proof {
            assert(out@ =~= old(out)@ + (hex_chars(n as int / 16) + seq![hex_digit(
                n as int % 16,
            )]));
        }
    }
}

/// The stable identity hash of a URL, used to name documents whose URL
/// path carries no usable file name.
pub fn hash_url(url: &str) -> (r: String)
    ensures
        r@ == spec_hash_url(url@),
{
    let h = fnv1a_exec(url.as_bytes());
    let mut digits: Vec<char> = Vec::new();
    push_hex(h, &mut digits);
    proof {
        assert(Seq::<char>::empty() + hex_chars(h as int) =~= hex_chars(h as int));
    }
    chars_to_string(&digits)
}

/// `p` occurs as a contiguous subsequence of `t`.
pub open spec fn contains_sub(t: Seq<char>, p: Seq<char>) -> bool {
    exists|i: int| 0 <= i <= t.len() - p.len() && #[trigger] t.subrange(i, i + p.len()) == p
}

fn match_at(t: &Vec<char>, p: &Vec<char>, i: usize) -> (r: bool)
    requires
        i + p@.len() <= t@.len(),
    ensures
        r == (t@.subrange(i as int, i + p@.len()) == p@),
{
    let n = t.len();
    let mut k: usize = 0;
    while k < p.len()
        invariant
            0 <= k <= p@.len(),
            n == t@.len(),
            i + p@.len() <= t@.len(),
            forall|m: int| 0 <= m < k ==> t@[i + m] == #[trigger] p@[m],
        decreases p@.len() - k,
    {
        if t[i + k] != p[k] {
            proof {
                assert(t@.subrange(i as int, i + p@.len())[k as int] == t@[i + k]);
            }
            return false;
        }
        k = k + 1;
    }
    proof {
        assert(t@.subrange(i as int, i + p@.len()) =~= p@);
    }
    true
}

fn contains_chars(t: &Vec<char>, p: &Vec<char>) -> (r: bool)
    ensures
        r == contains_sub(t@, p@),
{
    let n = t.len();
    let m = p.len();
    if m > n {
        proof {
            assert(!contains_sub(t@, p@));
        }
        return false;
    }
    if m == 0 {
        proof {
            assert(contains_sub(t@, p@)) by {
                assert(t@.subrange(0, 0 + p@.len() as int) =~= p@);
            }
        }
        return true;
    }
    let mut i: usize = 0;
    while i <= n - m
        invariant
            n == t@.len(),
            m == p@.len(),
            1 <= m <= n,
            0 <= i <= n - m + 1,
            forall|k: int| 0 <= k < i ==> #[trigger] t@.subrange(k, k + p@.len()) != p@,
        decreases n - m + 1 - i,
    {
        if match_at(t, p, i) {
            return true;
        }
        i = i + 1;
    }
    proof {
        assert(!contains_sub(t@, p@));
    }
    false
}

/// The segment lowered to ASCII lower case.
pub open spec fn lowered(s: Seq<char>) -> Seq<char> {
    s.map_values(|c: char| lower_char(c))
}

/// Whether a path segment looks like an API endpoint rather than a file:
/// it contains one of the usual API words, or a dash or underscore, as
/// REST resource names do.
pub open spec fn spec_is_likely_api_endpoint(s: Seq<char>) -> bool {
    ||| contains_sub(lowered(s), "api"@)
    ||| contains_sub(lowered(s), "get"@)
    ||| contains_sub(lowered(s), "post"@)
    ||| contains_sub(lowered(s), "fetch"@)
    ||| contains_sub(lowered(s), "data"@)
    ||| contains_sub(lowered(s), "token"@)
    ||| contains_sub(lowered(s), "auth"@)
    ||| contains_sub(lowered(s), "secret"@)
    ||| s.contains('-')
    ||| s.contains('_')
}

fn lowered_chars(s: &Vec<char>) -> (r: Vec<char>)
    ensures
        r@ == lowered(s@),
{
    let mut out: Vec<char> = Vec::new();
    let mut i: usize = 0;
    while i < s.len()
        invariant
            0 <= i <= s@.len(),
            out@.len() == i as int,
            forall|k: int| 0 <= k < i ==> out@[k] == lower_char(s@[k]),
        decreases s@.len() - i,
    {
        out.push(to_lower(s[i]));
        i = i + 1;
    }
    proof {
        assert(out@ =~= lowered(s@));
    }
    out
}

fn contains_char_exec(s: &Vec<char>, c: char) -> (r: bool)
    ensures
        r == s@.contains(c),
{
    let mut i: usize = 0;
    while i < s.len()
        invariant
            0 <= i <= s@.len(),
            forall|k: int| 0 <= k < i ==> s@[k] != c,
        decreases s@.len() - i,
    {
        if s[i] == c {
            return true;
        }
        i = i + 1;
    }
    false
}

fn literal_chars(s: &str) -> (r: Vec<char>)
    ensures
        r@ == s@,
{
    string_to_chars(s)
}

/// Name for what the `url` crate computes from a URL string: the last
/// segment of the parsed URL's path, the empty sequence where the path
/// has no segments, or nothing where the string is not a valid URL.  The
/// result depends on the string alone.
pub uninterp spec fn url_tail(s: Seq<char>) -> Option<Seq<char>>;

/// Relies on `url::Url::parse` and `url::Url::path_segments`: parsing a
/// URL and taking its last path segment is a pure function of the string,
/// named [`url_tail`]; parse failure reports as nothing.
#[verifier::external_body]
fn url_last_path_segment(url: &str) -> (r: Option<String>)
    ensures
        r is Some <==> url_tail(url@) is Some,
        r matches Some(s) ==> url_tail(url@) == Some(s@),
{
    match url::Url::parse(url) {
        Ok(parsed) => {
            let seg = parsed.path_segments().and_then(|segments| segments.last()).unwrap_or("");
            Some(seg.to_string())
        },
        Err(_) => None,
    }
}

/// The prefix of a segment before its first `'?'` (a defensive cut: a
/// parsed path segment should not carry a query).
pub open spec fn before_query(s: Seq<char>) -> Seq<char>
    decreases s.len(),
{
    if s.len() == 0 {
        s
    } else if s.first() == '?' {
        Seq::empty()
    } else {
        seq![s.first()] + before_query(s.drop_first())
    }
}

/// `s` ends with `suffix`, compared case-insensitively over ASCII.
pub open spec fn ends_with_ci(s: Seq<char>, suffix: Seq<char>) -> bool {
    s.len() >= suffix.len() && forall|k: int|
        0 <= k < suffix.len() ==> lower_char(s[s.len() - suffix.len() + k]) == #[trigger] suffix[k]
}

/// A character allowed in a stored file name: ASCII alphanumeric, dot,
/// underscore, dash.  Everything else is replaced by an underscore.
pub open spec fn filename_char_ok(c: char) -> bool {
    ||| 48 <= (c as u32) <= 57
    ||| 65 <= (c as u32) <= 90
    ||| 97 <= (c as u32) <= 122
    ||| c == '.'
    ||| c == '_'
    ||| c == '-'
}

/// The segment made safe for the file system.
pub open spec fn spec_sanitize_filename(s: Seq<char>) -> Seq<char> {
    s.map_values(
        |c: char|
            if filename_char_ok(c) {
                c
            } else {
                '_'
            },
    )
}

/// The extensions the service recognizes in a stored file name.
pub open spec fn has_allowed_ext(s: Seq<char>) -> bool {
    ||| ends_with_ci(s, ".jpeg"@)
    ||| ends_with_ci(s, ".jpg"@)
    ||| ends_with_ci(s, ".pptx"@)
    ||| ends_with_ci(s, ".docx"@)
    ||| ends_with_ci(s, ".xlsx"@)
    ||| ends_with_ci(s, ".png"@)
    ||| ends_with_ci(s, ".pdf"@)
    ||| ends_with_ci(s, ".txt"@)
    ||| ends_with_ci(s, ".json"@)
    ||| ends_with_ci(s, ".xml"@)
}

/// The abstract outcome of file naming.
pub ghost enum FilenameKind {
    /// The URL could not be parsed; the request is rejected.
    Invalid,
    /// The URL names a file format the service refuses outright.
    Unsupported,
    /// The URL is the token endpoint; the caller fetches it and stores the
    /// body under [`secret_token_filename`].
    SecretToken,
    /// The name to store the document under.
    Named(Seq<char>),
}

/// How a document file is named from its URL: the cleaned last path
/// segment when it carries a recognized extension; the segment with a
/// guessed extension when it looks like an endpoint or resource name; a
/// hash-based name when the path gives nothing usable.  Archive formats
/// are refused, and the token endpoint is handed to its own flow.
pub open spec fn spec_generate_filename(url: Seq<char>, tail: Option<Seq<char>>) -> FilenameKind {
    match tail {
        Option::None => FilenameKind::Invalid,
        Option::Some(seg) => {
            let clean = before_query(seg);
            if clean == "get-secret-token"@ {
                FilenameKind::SecretToken
            } else if ends_with_ci(clean, ".zip"@) || ends_with_ci(clean, ".bin"@) {
                FilenameKind::Unsupported
            } else {
                let named = if has_allowed_ext(clean) && clean.len() > 0 {
                    clean
                } else if clean.len() > 3 {
                    if spec_is_likely_api_endpoint(clean) {
                        clean + ".json"@
                    } else {
                        clean + ".pdf"@
                    }
                } else {
                    "document_"@ + spec_hash_url(url) + ".pdf"@
                };
                FilenameKind::Named(spec_sanitize_filename(named))
            }
        },
    }
}

/// How a document URL resolves to a stored file.
pub enum FilenameDecision {
    /// The URL could not be parsed; the request is rejected.
    Invalid,
    /// The URL names a file format the service refuses outright.
    Unsupported,
    /// The URL is the token endpoint; the caller fetches it and stores the
    /// body under [`secret_token_filename`].
    SecretToken,
    /// The name to store the document under.
    Filename(String),
}

/// The abstract content of a [`FilenameDecision`].
pub open spec fn kind_of(d: FilenameDecision) -> FilenameKind {
    match d {
        FilenameDecision::Invalid => FilenameKind::Invalid,
        FilenameDecision::Unsupported => FilenameKind::Unsupported,
        FilenameDecision::SecretToken => FilenameKind::SecretToken,
        FilenameDecision::Filename(s) => FilenameKind::Named(s@),
    }
}

fn before_query_exec(s: &Vec<char>) -> (r: Vec<char>)
    ensures
        r@ == before_query(s@),
{
    let mut out: Vec<char> = Vec::new();
    let mut i: usize = 0;
    while i < s.len()
        invariant
            0 <= i <= s@.len(),
            forall|k: int| 0 <= k < i ==> s@[k] != '?',
            out@ == s@.take(i as int),
        decreases s@.len() - i,
    {
        if s[i] == '?' {
            proof {
                lemma_before_query_cut(s@, i as int);
            }
            return out;
        }
        out.push(s[i]);
        proof {
            assert(s@.take(i + 1 as int) =~= s@.take(i as int).push(s@[i as int]));
        }
        i = i + 1;
    }
    proof {
        assert(s@.take(s@.len() as int) =~= s@);
        lemma_before_query_whole(s@);
    }
    out
}

/// Where a `'?'` first occurs at position `i`, the prefix before it is
/// the first `i` characters.
proof fn lemma_before_query_cut(s: Seq<char>, i: int)
    requires
        0 <= i < s.len(),
        s[i] == '?',
        forall|k: int| 0 <= k < i ==> s[k] != '?',
    ensures
        before_query(s) == s.take(i),
    decreases i,
{
    if i == 0 {
        assert(before_query(s) =~= s.take(0));
    } else {
        let d = s.drop_first();
        assert(d[i - 1] == s[i]);
        assert(forall|k: int| 0 <= k < i - 1 ==> d[k] == #[trigger] s[k + 1]);
        lemma_before_query_cut(d, i - 1);
        assert(seq![s.first()] + d.take(i - 1) =~= s.take(i));
    }
}

/// With no `'?'` anywhere, the whole segment is kept.
proof fn lemma_before_query_whole(s: Seq<char>)
    requires
        forall|k: int| 0 <= k < s.len() ==> s[k] != '?',
    ensures
        before_query(s) == s,
    decreases s.len(),
{
    if s.len() > 0 {
        let d = s.drop_first();
        assert(forall|k: int| 0 <= k < d.len() ==> d[k] == #[trigger] s[k + 1]);
        lemma_before_query_whole(d);
        assert(seq![s.first()] + d =~= s);
    }
}

fn ends_with_ci_exec(s: &Vec<char>, suffix: &Vec<char>) -> (r: bool)
    ensures
        r == ends_with_ci(s@, suffix@),
{
    let n = s.len();
    let m = suffix.len();
    if m > n {
        return false;
    }
    let mut k: usize = 0;
    while k < m
        invariant
            0 <= k <= m,
            n == s@.len(),
            m == suffix@.len(),
            m <= n,
            forall|j: int|
                0 <= j < k ==> lower_char(s@[s@.len() - suffix@.len() + j]) == #[trigger] suffix@[j],
        decreases m - k,
    {
        if to_lower(s[n - m + k]) != suffix[k] {
            return false;
        }
        k = k + 1;
    }
    true
}

fn sanitize_filename_exec(s: &Vec<char>) -> (r: Vec<char>)
    ensures
        r@ == spec_sanitize_filename(s@),
{
    let mut out: Vec<char> = Vec::new();
    let mut i: usize = 0;
    while i < s.len()
        invariant
            0 <= i <= s@.len(),
            out@.len() == i as int,
            forall|k: int|
                0 <= k < i ==> out@[k] == (if filename_char_ok(s@[k]) {
                    s@[k]
                } else {
                    '_'
                }),
        decreases s@.len() - i,
    {
        let c = s[i];
        let u = c as u32;
        let keep = (48 <= u && u <= 57) || (65 <= u && u <= 90) || (97 <= u && u <= 122) || c
            == '.' || c == '_' || c == '-';
        if keep {
            out.push(c);
        } else {
            out.push('_');
        }
        i = i + 1;
    }
    proof {
        assert(out@ =~= spec_sanitize_filename(s@));
    }
    out
}

/// Decides the stored file name from a URL and its last path segment,
/// exactly as [`spec_generate_filename`] describes for a present segment.
pub fn filename_for_segment(url: &str, segment: &str) -> (r: FilenameDecision)
    ensures
        kind_of(r) == spec_generate_filename(url@, Some(segment@)),
{
    let seg = string_to_chars(segment);
    let clean = before_query_exec(&seg);
    if chars_eq(&clean, &literal_chars("get-secret-token")) {
        return FilenameDecision::SecretToken;
    }
    if ends_with_ci_exec(&clean, &literal_chars(".zip")) || ends_with_ci_exec(
        &clean,
        &literal_chars(".bin"),
    ) {
        return FilenameDecision::Unsupported;
    }
    let allowed = ends_with_ci_exec(&clean, &literal_chars(".jpeg")) || ends_with_ci_exec(
        &clean,
        &literal_chars(".jpg"),
    ) || ends_with_ci_exec(&clean, &literal_chars(".pptx")) || ends_with_ci_exec(
        &clean,
        &literal_chars(".docx"),
    ) || ends_with_ci_exec(&clean, &literal_chars(".xlsx")) || ends_with_ci_exec(
        &clean,
        &literal_chars(".png"),
    ) || ends_with_ci_exec(&clean, &literal_chars(".pdf")) || ends_with_ci_exec(
        &clean,
        &literal_chars(".txt"),
    ) || ends_with_ci_exec(&clean, &literal_chars(".json")) || ends_with_ci_exec(
        &clean,
        &literal_chars(".xml"),
    );
    let named: String = if allowed && clean.len() > 0 {
        chars_to_string(&clean)
    } else if clean.len() > 3 {
        let mut base = chars_to_string(&clean);
        if is_likely_api_endpoint(chars_to_string(&clean).as_str()) {
            base.append(".json");
        } else {
            base.append(".pdf");
        }
        base
    } else {
        let mut base = "document_".to_owned();
        base.append(hash_url(url).as_str());
        base.append(".pdf");
        base
    };
    let safe = sanitize_filename_exec(&string_to_chars(named.as_str()));
    FilenameDecision::Filename(chars_to_string(&safe))
}

/// Resolves a document URL to a stored file name: the parsed last path
/// segment decides, per [`spec_generate_filename`].
pub fn generate_filename_from_url(url: &str) -> (r: FilenameDecision)
    ensures
        kind_of(r) == spec_generate_filename(url@, url_tail(url@)),
{
    match url_last_path_segment(url) {
        Some(seg) => filename_for_segment(url, seg.as_str()),
        None => FilenameDecision::Invalid,
    }
}

/// The part of a file name after its last dot, or the whole name where
/// there is no dot.
pub open spec fn ext_of(s: Seq<char>) -> Seq<char>
    decreases s.len(),
{
    if s.len() == 0 {
        s
    } else if s.last() == '.' {
        Seq::empty()
    } else {
        ext_of(s.drop_last()) + seq![s.last()]
    }
}

/// What to do with a download request, decided from the URL path's last
/// segment by its extension.
#[derive(Debug, PartialEq, Eq, Structural)]
pub enum DownloadDecision {
    /// An archive extension: the download is skipped without error.
    Skip,
    /// An extension the fetcher does not accept: the request fails.
    Unsupported,
    /// A recognized document extension: the file is fetched.
    Fetch,
}

/// The extension gate applied before any document download: archives are
/// skipped, only the recognized document formats are fetched.
pub open spec fn spec_download_decision(seg: Seq<char>) -> DownloadDecision {
    let ext = lowered(ext_of(seg));
    if ext == "zip"@ || ext == "bin"@ {
        DownloadDecision::Skip
    } else if ext == "jpeg"@ || ext == "pptx"@ || ext == "docx"@ || ext == "xlsx"@ || ext
        == "png"@ || ext == "pdf"@ {
        DownloadDecision::Fetch
    } else {
        DownloadDecision::Unsupported
    }
}

/// With a dot at `d` and none after it, the extension is what follows.
proof fn lemma_ext_of_cut(s: Seq<char>, d: int)
    requires
        0 <= d < s.len(),
        s[d] == '.',
        forall|k: int| d < k < s.len() ==> s[k] != '.',
    ensures
        ext_of(s) == s.skip(d + 1),
    decreases s.len(),
{
    if d == s.len() - 1 {
        assert(s.last() == '.');
        assert(s.skip(d + 1) =~= Seq::<char>::empty());
    } else {
        assert(s.last() != '.');
        let t = s.drop_last();
        assert(t[d] == s[d]);
        assert(forall|k: int| d < k < t.len() ==> t[k] == #[trigger] s[k]);
        lemma_ext_of_cut(t, d);
        assert(t.skip(d + 1) + seq![s.last()] =~= s.skip(d + 1));
    }
}

/// With no dot anywhere, the whole name is the extension.
proof fn lemma_ext_of_whole(s: Seq<char>)
    requires
        forall|k: int| 0 <= k < s.len() ==> s[k] != '.',
    ensures
        ext_of(s) == s,
    decreases s.len(),
{
    if s.len() > 0 {
        let t = s.drop_last();
        assert(forall|k: int| 0 <= k < t.len() ==> t[k] == #[trigger] s[k]);
        lemma_ext_of_whole(t);
        assert(t + seq![s.last()] =~= s);
    }
}

fn ext_of_exec(s: &Vec<char>) -> (r: Vec<char>)
    ensures
        r@ == ext_of(s@),
{
    let mut dot: Option<usize> = None;
    let mut i: usize = 0;
    while i < s.len()
        invariant
            0 <= i <= s@.len(),
            match dot {
                Some(d) => d < i && s@[d as int] == '.' && forall|k: int|
                    d < k < i ==> s@[k] != '.',
                None => forall|k: int| 0 <= k < i ==> s@[k] != '.',
            },
        decreases s@.len() - i,
    {
        if s[i] == '.' {
            dot = Some(i);
        }
        i = i + 1;
    }
    match dot {
        Some(d) => {
            proof {
                lemma_ext_of_cut(s@, d as int);
                assert(s@.skip(d + 1 as int) =~= s@.subrange(d + 1 as int, s@.len() as int));
            }
            crate::text::subvec_chars(s, d + 1, s.len())
        },
        None => {
            proof {
                lemma_ext_of_whole(s@);
                assert(s@.subrange(0, s@.len() as int) =~= s@);
            }
            crate::text::subvec_chars(s, 0, s.len())
        },
    }
}

/// Decides a download request from the URL path's last segment, exactly
/// as [`spec_download_decision`] describes.
pub fn download_decision(segment: &str) -> (r: DownloadDecision)
    ensures
        r == spec_download_decision(segment@),
{
    let seg = string_to_chars(segment);
    let ext = lowered_chars(&ext_of_exec(&seg));
    if chars_eq(&ext, &literal_chars("zip")) || chars_eq(&ext, &literal_chars("bin")) {
        DownloadDecision::Skip
    } else if chars_eq(&ext, &literal_chars("jpeg")) || chars_eq(&ext, &literal_chars("pptx"))
        || chars_eq(&ext, &literal_chars("docx")) || chars_eq(&ext, &literal_chars("xlsx"))
        || chars_eq(&ext, &literal_chars("png")) || chars_eq(&ext, &literal_chars("pdf")) {
        DownloadDecision::Fetch
    } else {
        DownloadDecision::Unsupported
    }
}

pub open spec fn is_hex_char(c: char) -> bool {
    ||| 48 <= (c as u32) <= 57
    ||| 97 <= (c as u32) <= 102
    ||| 65 <= (c as u32) <= 70
}

/// The length of the run of hexadecimal digits starting at `i`.
pub open spec fn hex_run_len(t: Seq<char>, i: int) -> int
    recommends
        0 <= i <= t.len(),
    decreases t.len() - i,
    when 0 <= i <= t.len()
{
    if i >= t.len() || !is_hex_char(t[i]) {
        0
    } else {
        1 + hex_run_len(t, i + 1)
    }
}

/// The first run of at least 32 hexadecimal digits: its bounds, or
/// nothing.  Such a run is how a stored access token looks.
pub open spec fn find_token(t: Seq<char>, i: int) -> Option<(int, int)>
    recommends
        0 <= i <= t.len(),
    decreases t.len() - i,
    when 0 <= i <= t.len()
{
    if i >= t.len() {
        None
    } else if hex_run_len(t, i) >= 32 {
        Some((i, i + hex_run_len(t, i)))
    } else {
        find_token(t, i + 1)
    }
}

fn is_hex_exec(c: char) -> (r: bool)
    ensures
        r == is_hex_char(c),
{
    let u = c as u32;
    (48 <= u && u <= 57) || (97 <= u && u <= 102) || (65 <= u && u <= 70)
}

fn hex_run(t: &Vec<char>, i: usize) -> (r: usize)
    requires
        i <= t@.len(),
    ensures
        r as int == hex_run_len(t@, i as int),
        i + r <= t@.len(),
{
    let mut j: usize = i;
    while j < t.len() && is_hex_exec(t[j])
        invariant
            i <= j <= t@.len(),
            hex_run_len(t@, i as int) == (j - i) + hex_run_len(t@, j as int),
        decreases t@.len() - j,
    {
        j = j + 1;
    }
    j - i
}

/// Finds the first access-token-shaped run (32 or more hexadecimal
/// digits) in a stored text, exactly per [`find_token`].
pub fn find_hex_token(content: &str) -> (r: Option<String>)
    ensures
        match r {
            Some(s) => find_token(content@, 0) matches Some(p) && s@ == content@.subrange(
                p.0,
                p.1,
            ),
            None => find_token(content@, 0) is None,
        },
{
    let t = string_to_chars(content);
    let mut i: usize = 0;
    while i < t.len()
        invariant
            0 <= i <= t@.len(),
            t@ == content@,
            find_token(t@, 0) == find_token(t@, i as int),
        decreases t@.len() - i,
    {
        let run = hex_run(&t, i);
        if run >= 32 {
            let piece = crate::text::subvec_chars(&t, i, i + run);
            return Some(chars_to_string(&piece));
        }
        i = i + 1;
    }
    None
}

/// The file name under which a fetched secret token is stored.
pub fn secret_token_filename(url: &str) -> (r: String)
    ensures
        r@ == "secret_token_"@ + spec_hash_url(url@) + ".txt"@,
{
    let mut base = "secret_token_".to_owned();
    base.append(hash_url(url).as_str());
    base.append(".txt");
    base
}

/// Decides whether a URL path segment names an API endpoint.
pub fn is_likely_api_endpoint(segment: &str) -> (r: bool)
    ensures
        r == spec_is_likely_api_endpoint(segment@),
{
    let cs = string_to_chars(segment);
    let low = lowered_chars(&cs);
    contains_chars(&low, &literal_chars("api")) || contains_chars(&low, &literal_chars("get"))
        || contains_chars(&low, &literal_chars("post")) || contains_chars(
        &low,
        &literal_chars("fetch"),
    ) || contains_chars(&low, &literal_chars("data")) || contains_chars(
        &low,
        &literal_chars("token"),
    ) || contains_chars(&low, &literal_chars("auth")) || contains_chars(
        &low,
        &literal_chars("secret"),
    ) || contains_char_exec(&cs, '-') || contains_char_exec(&cs, '_')
}

} // verus!
