//! HTTP client configuration, response-header interpretation and the
//! mapping of transport failures to errors.

use vstd::prelude::*;

use crate::error::Error;
use crate::model::ResourceInfo;
use crate::text::{
    ascii_lower, ascii_lower_spec, chars_of, copy_range, eq_lit, has_prefix, is_whitespace,
    is_whitespace_spec, push_str, split_chars, split_on, string_of, strip_prefix_chars, views_of,
};
use crate::url::Url;

verus! {

/// Redirect policy for the HTTP client.
#[derive(Debug, Clone, Copy, PartialEq, Eq, Structural)]
pub enum RedirectPolicy {
    /// Follow up to `max` redirects, erroring past that.
    Limited {
        /// Maximum number of redirect hops.
        max: usize,
    },
    /// Do not follow redirects at all.
    Disabled,
}

impl Default for RedirectPolicy {
    fn default() -> (r: RedirectPolicy)
        ensures
            r == (RedirectPolicy::Limited { max: 10 }),
    {
        RedirectPolicy::Limited { max: 10 }
    }
}

/// Configuration of the HTTP client.
pub struct HttpClientConfig {
    /// User-Agent header value.
    pub user_agent: String,
    /// Maximum time to wait for a TCP/TLS connect, in milliseconds.
    pub connect_timeout: u64,
    /// Maximum time for the whole request, in milliseconds; 0 means no cap.
    pub request_timeout: u64,
    /// Redirect policy.
    pub redirect_policy: RedirectPolicy,
    /// Whether to accept compressed responses.
    pub accept_encoding: bool,
}

/// The User-Agent sent by default.
pub open spec fn default_user_agent() -> Seq<char> {
    "OpenDownloadManager/"@ + crate::cli::version_text() + " (+https://github.com/opendownloadmanager)"@
}

impl Default for HttpClientConfig {
    fn default() -> (r: HttpClientConfig)
        ensures
            r.user_agent@ == default_user_agent(),
            r.connect_timeout == 15000,
            r.request_timeout == 0,
            r.redirect_policy == (RedirectPolicy::Limited { max: 10 }),
            r.accept_encoding,
    {
        let mut ua = String::new();
        push_str(&mut ua, "OpenDownloadManager/");
        push_str(&mut ua, crate::cli::app_version());
        push_str(&mut ua, " (+https://github.com/opendownloadmanager)");
        HttpClientConfig {
            user_agent: ua,
            connect_timeout: 15000,
            request_timeout: 0,
            redirect_policy: RedirectPolicy::Limited { max: 10 },
            accept_encoding: true,
        }
    }
}

/// Errors that can occur while constructing the HTTP client.
#[derive(Debug)]
pub enum HttpClientError {
    /// The underlying client builder failed.
    Build(String),
}

/// `true` for a success status (`200..=299`).
pub open spec fn is_success(status: u16) -> bool {
    200 <= status && status <= 299
}

/// Accepts a success status; any other is reported as [`Error::Http`] with
/// the URL that answered.
pub fn check_status(status: u16, url: &str) -> (r: Result<(), Error>)
    ensures
        is_success(status) ==> r is Ok,
        !is_success(status) ==> (r matches Err(Error::Http { status: s, url: u }) && s == status
            && u@ == url@),
{
    if 200 <= status && status <= 299 {
        Ok(())
    } else {
        let mut u = String::new();
        push_str(&mut u, url);
        Err(Error::Http { status, url: u })
    }
}

/// The facts about a failed request that decide how it is reported.
pub struct RequestFailure {
    /// The request timed out.
    pub timeout: bool,
    /// The connection could not be established.
    pub connect: bool,
    /// The HTTP status the failure carries, if any.
    pub status: Option<u16>,
    /// The URL the failure concerns, if known.
    pub url: Option<String>,
    /// The failure's description.
    pub text: String,
}

/// Maps a failed request to an error: timeouts and connection failures are
/// network errors, a failure carrying a status is an HTTP error (with the
/// URL, or `<unknown>`), anything else is a network error.
pub fn map_request_failure(f: RequestFailure) -> (r: Error)
    ensures
        (f.timeout || f.connect) ==> (r matches Error::Network(m) && m@ == f.text@),
        !(f.timeout || f.connect) && f.status is Some ==> (r matches Error::Http { status, url }
            && status == f.status.unwrap() && url@ == (match f.url {
            Some(u) => u@,
            None => "<unknown>"@,
        })),
        !(f.timeout || f.connect) && f.status is None ==> (r matches Error::Network(m) && m@
            == f.text@),
{
    if f.timeout || f.connect {
        Error::Network(f.text)
    } else {
        match f.status {
            Some(status) => {
                let url = match f.url {
                    Some(u) => u,
                    None => {
                        let mut t = String::new();
                        push_str(&mut t, "<unknown>");
                        t
                    },
                };
                Error::Http { status, url }
            },
            None => Error::Network(f.text),
        }
    }
}

/// `s` without leading and trailing characters satisfying `p`.
pub open spec fn trim_by(s: Seq<char>, p: spec_fn(char) -> bool) -> Seq<char> {
    trim_back_by(trim_front_by(s, p), p)
}

/// `s` without leading characters satisfying `p`.
pub open spec fn trim_front_by(s: Seq<char>, p: spec_fn(char) -> bool) -> Seq<char>
    decreases s.len(),
{
    if s.len() > 0 && p(s[0]) {
        trim_front_by(s.drop_first(), p)
    } else {
        s
    }
}

/// `s` without trailing characters satisfying `p`.
pub open spec fn trim_back_by(s: Seq<char>, p: spec_fn(char) -> bool) -> Seq<char>
    decreases s.len(),
{
    if s.len() > 0 && p(s.last()) {
        trim_back_by(s.drop_last(), p)
    } else {
        s
    }
}

/// Unicode whitespace (what `str::trim` removes).
pub open spec fn ws() -> spec_fn(char) -> bool {
    |c: char| is_whitespace_spec(c)
}

/// The double quote (what `trim_matches('"')` removes).
pub open spec fn quote() -> spec_fn(char) -> bool {
    |c: char| c == '"'
}

/// Trims characters that are whitespace (`quotes` false) or double quotes
/// (`quotes` true) from both ends.
fn trim_chars(v: &[char], quotes: bool) -> (r: Vec<char>)
    ensures
        !quotes ==> r@ == trim_by(v@, ws()),
        quotes ==> r@ == trim_by(v@, quote()),
{
    let ghost p = if quotes {
        quote()
    } else {
        ws()
    };
    let n = v.len();
    let mut a: usize = 0;
    assert(v@.subrange(0, n as int) =~= v@);
    loop
        invariant
            a <= n,
            n == v@.len(),
            p == (if quotes {
                quote()
            } else {
                ws()
            }),
            trim_front_by(v@, p) == trim_front_by(v@.subrange(a as int, n as int), p),
        ensures
            a <= n,
            trim_front_by(v@, p) == v@.subrange(a as int, n as int),
        decreases n - a,
    {
        if a == n {
            break;
        }
        let c = v[a];
        let hit = if quotes {
            c == '"'
        } else {
            is_whitespace(c)
        };
        assert(hit == p(c));
        if !hit {
            break;
        }
        assert(v@.subrange(a as int, n as int).drop_first() =~= v@.subrange(a + 1, n as int));
        a = a + 1;
    }
    let mut b: usize = n;
    loop
        invariant
            a <= b <= n,
            n == v@.len(),
            p == (if quotes {
                quote()
            } else {
                ws()
            }),
            trim_front_by(v@, p) == v@.subrange(a as int, n as int),
            trim_by(v@, p) == trim_back_by(v@.subrange(a as int, b as int), p),
        ensures
            a <= b <= n,
            trim_by(v@, p) == v@.subrange(a as int, b as int),
        decreases b - a,
    {
        if b == a {
            break;
        }
        let c = v[b - 1];
        let hit = if quotes {
            c == '"'
        } else {
            is_whitespace(c)
        };
        assert(hit == p(c));
        if !hit {
            break;
        }
        assert(v@.subrange(a as int, b as int).drop_last() =~= v@.subrange(a as int, b - 1));
        b = b - 1;
    }
    copy_range(v, a, b)
}

/// The value of a hexadecimal digit byte.
pub open spec fn hex_value(b: u8) -> Option<u8> {
    if 0x30 <= b && b <= 0x39 {
        Some((b - 0x30) as u8)
    } else if 0x61 <= b && b <= 0x66 {
        Some((b - 0x61 + 10) as u8)
    } else if 0x41 <= b && b <= 0x46 {
        Some((b - 0x41 + 10) as u8)
    } else {
        None
    }
}

/// The value of a hexadecimal digit byte.
pub fn hex(b: u8) -> (r: Option<u8>)
    ensures
        r == hex_value(b),
{
    if 0x30 <= b && b <= 0x39 {
        Some(b - 0x30)
    } else if 0x61 <= b && b <= 0x66 {
        Some(b - 0x61 + 10)
    } else if 0x41 <= b && b <= 0x46 {
        Some(b - 0x41 + 10)
    } else {
        None
    }
}

/// Percent-decoding of bytes: `%` followed by two hex digits is replaced by
/// the byte they denote; every other byte is kept.
pub open spec fn pct_decoded(b: Seq<u8>) -> Seq<u8>
    decreases b.len(),
{
    if b.len() == 0 {
        seq![]
    } else if b[0] == 0x25 && b.len() > 2 && hex_value(b[1]) is Some && hex_value(b[2]) is Some {
        seq![(hex_value(b[1]).unwrap() * 16 + hex_value(b[2]).unwrap()) as u8] + pct_decoded(
            b.skip(3),
        )
    } else {
        seq![b[0]] + pct_decoded(b.skip(1))
    }
}

/// What `String::from_utf8_lossy` gives for a byte sequence.
pub uninterp spec fn utf8_lossy(b: Seq<u8>) -> Seq<char>;

/// `String::from_utf8_lossy`.
///
/// Trusted: the text is named `utf8_lossy` (valid UTF-8 decoded, each
/// invalid sequence replaced by U+FFFD); bytes that are valid UTF-8 are
/// decoded as they are, as the standard library documents.
#[verifier::external_body]
fn from_utf8_lossy(b: &[u8]) -> (r: String)
    ensures
        r@ == utf8_lossy(b@),
        vstd::utf8::valid_utf8(b@) ==> r@ == vstd::utf8::decode_utf8(b@),
{
    String::from_utf8_lossy(b).into_owned()
}

/// Decodes `%XX` escapes of the UTF-8 encoding of `input`; the bytes are read
/// back as UTF-8 with invalid sequences replaced.
pub fn percent_decode(input: &str) -> (r: String)
    ensures
        r@ == utf8_lossy(pct_decoded(vstd::utf8::encode_utf8(input@))),
        vstd::utf8::valid_utf8(pct_decoded(vstd::utf8::encode_utf8(input@))) ==> r@
            == vstd::utf8::decode_utf8(pct_decoded(vstd::utf8::encode_utf8(input@))),
{
    let bytes = input.as_bytes();
    let ghost b = bytes@;
    let n = bytes.len();
    let mut out: Vec<u8> = Vec::new();
    let mut i: usize = 0;
    assert(b.skip(0) =~= b);
    assert(out@ + pct_decoded(b.skip(0)) =~= pct_decoded(b));
    while i < n
        invariant
            n == b.len(),
            b == bytes@,
            i <= n,
            out@ + pct_decoded(b.skip(i as int)) == pct_decoded(b),
        decreases n - i,
    {
        let ghost rest = b.skip(i as int);
        if bytes[i] == 0x25 && n - i > 2 {
            let h = hex(bytes[i + 1]);
            let l = hex(bytes[i + 2]);
            assert(rest[1] == b[i + 1] && rest[2] == b[i + 2]);
            if h.is_some() && l.is_some() {
                let hv = h.unwrap();
                let lv = l.unwrap();
                out.push((hv * 16 + lv) as u8);
                assert(rest.skip(3) =~= b.skip(i + 3));
                i = i + 3;
                continue;
            }
        }
        out.push(bytes[i]);
        assert(rest.skip(1) =~= b.skip(i + 1));
        i = i + 1;
    }
    assert(b.skip(n as int) =~= Seq::<u8>::empty());
    assert(out@ =~= pct_decoded(b));
    from_utf8_lossy(out.as_slice())
}

/// `true` when `s` holds `''` at position `i`.
pub open spec fn quote_mark_at(s: Seq<char>, i: int) -> bool {
    0 <= i && i + 1 < s.len() && s[i] == '\'' && s[i + 1] == '\''
}

/// The position of the first `''` in `s`, if any.
pub open spec fn first_double_quote_mark(s: Seq<char>) -> Option<int> {
    if exists|i: int| #[trigger] quote_mark_at(s, i) {
        Some(
            choose|i: int|
                #[trigger] quote_mark_at(s, i) && forall|j: int|
                    0 <= j < i ==> !#[trigger] quote_mark_at(s, j),
        )
    } else {
        None
    }
}

/// The file name an extended value (`charset'lang'percent-encoded`, RFC
/// 5987) denotes: the text after the first `''`, percent-decoded.
pub open spec fn extended_filename(rest: Seq<char>) -> Option<Seq<char>> {
    match first_double_quote_mark(rest) {
        Some(k) => Some(utf8_lossy(pct_decoded(vstd::utf8::encode_utf8(rest.skip(k + 2))))),
        None => None,
    }
}

/// The file name a plain value denotes: the value without surrounding
/// double quotes, when something is left.
pub open spec fn plain_filename(rest: Seq<char>) -> Option<Seq<char>> {
    let t = trim_by(rest, quote());
    if t.len() > 0 {
        Some(t)
    } else {
        None
    }
}

/// The file name one `;`-separated part of a `Content-Disposition` value
/// names, if it names one.
pub open spec fn part_filename(part: Seq<char>) -> Option<Seq<char>> {
    let p = trim_by(part, ws());
    if has_prefix(p, "filename*="@) {
        extended_filename(p.skip("filename*="@.len() as int))
    } else if has_prefix(p, "filename="@) {
        plain_filename(p.skip("filename="@.len() as int))
    } else {
        None
    }
}

/// The first file name named by a list of parts.
pub open spec fn first_filename(parts: Seq<Seq<char>>) -> Option<Seq<char>>
    decreases parts.len(),
{
    if parts.len() == 0 {
        None
    } else {
        match part_filename(parts[0]) {
            Some(f) => Some(f),
            None => first_filename(parts.drop_first()),
        }
    }
}

/// The file name a `Content-Disposition` value suggests: the first part of
/// the form `filename*=charset'lang'percent-encoded` (RFC 5987) or
/// `filename="..."`.
pub open spec fn disposition_filename(value: Seq<char>) -> Option<Seq<char>> {
    first_filename(split_on(value, ';'))
}

/// Finds the first `''` in `v`.
fn find_double_quote_mark(v: &[char]) -> (r: Option<usize>)
    ensures
        r matches Some(k) ==> first_double_quote_mark(v@) == Some(k as int),
        r matches Some(k) ==> k + 1 < v@.len(),
        r is None ==> first_double_quote_mark(v@) is None,
{
    let n = v.len();
    let mut i: usize = 0;
    while i < n && n - i > 1
        invariant
            n == v@.len(),
            forall|j: int| 0 <= j < i ==> !#[trigger] quote_mark_at(v@, j),
        decreases n - i,
    {
        if v[i] == '\'' && v[i + 1] == '\'' {
            let ghost s = v@;
            assert(quote_mark_at(s, i as int));
            let ghost c = choose|k: int|
                #[trigger] quote_mark_at(s, k) && forall|j: int|
                    0 <= j < k ==> !#[trigger] quote_mark_at(s, j);
            assert(c == i as int) by {
                if c < i {
                    assert(!quote_mark_at(s, c));
                } else if c > i {
                    assert(!quote_mark_at(s, i as int));
                }
            }
            return Some(i);
        }
        i = i + 1;
    }
    assert forall|j: int| !#[trigger] quote_mark_at(v@, j) by {
        if 0 <= j < i {
        }
    }
    None
}

/// The file name an extended value denotes.
fn extended_value_filename(rest: &[char]) -> (r: Option<String>)
    ensures
        r matches Some(s) ==> extended_filename(rest@) == Some(s@),
        r is None ==> extended_filename(rest@) is None,
{
    let found = find_double_quote_mark(rest);
    match found {
        Some(k) => {
            let len = rest.len();
            assert(k + 1 < len);
            let enc = copy_range(rest, k + 2, len);
            assert(enc@ == rest@.skip(k + 2));
            let text = string_of(&enc);
            Some(percent_decode(text.as_str()))
        },
        None => None,
    }
}

/// The file name a plain value denotes.
fn plain_value_filename(rest: &[char]) -> (r: Option<String>)
    ensures
        r matches Some(s) ==> plain_filename(rest@) == Some(s@),
        r is None ==> plain_filename(rest@) is None,
{
    let t = trim_chars(rest, true);
    if t.len() > 0 {
        Some(string_of(&t))
    } else {
        None
    }
}

/// The file name one part of a `Content-Disposition` value names.
fn filename_of_part(part: &[char]) -> (r: Option<String>)
    ensures
        r matches Some(s) ==> part_filename(part@) == Some(s@),
        r is None ==> part_filename(part@) is None,
{
    let p = trim_chars(part, false);
    proof {
        reveal_strlit("filename*=");
        reveal_strlit("filename=");
    }
    match strip_prefix_chars(&p, "filename*=") {
        Some(rest) => extended_value_filename(&rest),
        None => {
            match strip_prefix_chars(&p, "filename=") {
                Some(rest) => plain_value_filename(&rest),
                None => None,
            }
        },
    }
}

/// Parses `Content-Disposition` to extract a file name, supporting both
/// `filename="..."` and `filename*=UTF-8''...` (RFC 5987) forms.
pub fn parse_content_disposition_filename(value: &str) -> (r: Option<String>)
    ensures
        r matches Some(s) ==> disposition_filename(value@) == Some(s@),
        r is None ==> disposition_filename(value@) is None,
{
    let v = chars_of(value);
    let parts = split_chars(&v, ';');
    let ghost ps = views_of(parts@);
    let n = parts.len();
    let mut i: usize = 0;
    assert(ps.skip(0) =~= ps);
    while i < n
        invariant
            n == parts@.len(),
            ps == views_of(parts@),
            ps == split_on(v@, ';'),
            v@ == value@,
            i <= n,
            first_filename(ps) == first_filename(ps.skip(i as int)),
        decreases n - i,
    {
        assert(ps.skip(i as int)[0] == parts@[i as int]@);
        assert(ps.skip(i as int).drop_first() =~= ps.skip(i + 1));
        match filename_of_part(&parts[i]) {
            Some(f) => {
                return Some(f);
            },
            None => {},
        }
        i = i + 1;
    }
    assert(ps.skip(n as int) =~= Seq::<Seq<char>>::empty());
    None
}

/// The value of a run of decimal digits.
pub open spec fn digits_value(d: Seq<char>) -> nat
    decreases d.len(),
{
    if d.len() == 0 {
        0
    } else {
        digits_value(d.drop_last()) * 10 + ((d.last() as u32) - 48) as nat
    }
}

/// `true` for an ASCII decimal digit.
pub open spec fn is_digit(c: char) -> bool {
    '0' <= c && c <= '9'
}

/// `s` without one leading `+`.
pub open spec fn unsigned_part(s: Seq<char>) -> Seq<char> {
    if s.len() > 0 && s[0] == '+' {
        s.drop_first()
    } else {
        s
    }
}

/// `true` when every character of `d` is a decimal digit.
pub open spec fn all_digits(d: Seq<char>) -> bool {
    forall|i: int| 0 <= i < d.len() ==> is_digit(#[trigger] d[i])
}

/// What `u64::from_str` accepts: an optional `+` and one or more decimal
/// digits whose value fits in 64 bits.
pub open spec fn parse_u64_spec(s: Seq<char>) -> Option<u64> {
    let d = unsigned_part(s);
    if d.len() == 0 || !all_digits(d) {
        None
    } else if digits_value(d) > u64::MAX {
        None
    } else {
        Some(digits_value(d) as u64)
    }
}

proof fn lemma_digits_value_grows(d: Seq<char>, k: int)
    requires
        0 <= k <= d.len(),
        forall|i: int| 0 <= i < d.len() ==> is_digit(#[trigger] d[i]),
    ensures
        digits_value(d.take(k)) <= digits_value(d),
    decreases d.len(),
{
    if k < d.len() {
        lemma_digits_value_grows(d.drop_last(), k);
        assert(d.drop_last().take(k) =~= d.take(k));
        assert(is_digit(d[d.len() - 1]));
    } else {
        assert(d.take(k) =~= d);
    }
}

/// Parses a decimal `u64` as `u64::from_str` does.
pub fn parse_u64(v: &[char]) -> (r: Option<u64>)
    ensures
        r == parse_u64_spec(v@),
{
    let start: usize = if v.len() > 0 && v[0] == '+' {
        1
    } else {
        0
    };
    let d = copy_range(v, start, v.len());
    assert(d@ =~= unsigned_part(v@));
    if d.len() == 0 {
        return None;
    }
    let n = d.len();
    let ghost dd = d@;
    for i in 0..n
        invariant
            n == d@.len(),
            dd == d@,
            dd == unsigned_part(v@),
            forall|j: int| 0 <= j < i ==> is_digit(#[trigger] d@[j]),
    {
        if !('0' <= d[i] && d[i] <= '9') {
            assert(!is_digit(dd[i as int]));
            return None;
        }
    }
    let mut acc: u64 = 0;
    for i in 0..n
        invariant
            n == d@.len(),
            dd == d@,
            dd == unsigned_part(v@),
            forall|j: int| 0 <= j < n ==> is_digit(#[trigger] d@[j]),
            acc == digits_value(d@.take(i as int)),
    {
        assert(d@.take(i + 1).drop_last() =~= d@.take(i as int));
        assert(is_digit(d@[i as int]));
        let dig = (d[i] as u32 - 48) as u64;
        if acc > (u64::MAX - dig) / 10 {
            proof {
                lemma_digits_value_grows(d@, i + 1);
                assert(digits_value(d@.take(i + 1)) == acc * 10 + dig);
                assert(acc * 10 + dig > u64::MAX) by (nonlinear_arith)
                    requires
                        acc > (u64::MAX - dig) / 10,
                        dig <= 9,
                ;
            }
            return None;
        }
        assert(acc * 10 + dig <= u64::MAX) by (nonlinear_arith)
            requires
                acc <= (u64::MAX - dig) / 10,
                dig <= 9,
        ;
        acc = acc * 10 + dig;
    }
    assert(d@.take(n as int) =~= d@);
    Some(acc)
}

/// The announced `Content-Length`: the header text, trimmed, parsed as a
/// `u64`; `None` when absent or unparsable.
pub open spec fn content_length_of(h: Option<Seq<char>>) -> Option<u64> {
    match h {
        Some(t) => parse_u64_spec(trim_by(t, ws())),
        None => None,
    }
}

/// `true` when an `Accept-Ranges` value is `bytes`, ignoring ASCII case.
pub open spec fn accepts_byte_ranges(h: Option<Seq<char>>) -> bool {
    match h {
        Some(t) => t.map_values(|c: char| ascii_lower_spec(c)) == "bytes"@,
        None => false,
    }
}

/// The response headers the resource metadata is read from, as text (a
/// header that is absent or not valid text is `None`).
pub struct ResponseHeaders {
    pub content_length: Option<String>,
    pub content_type: Option<String>,
    pub etag: Option<String>,
    pub last_modified: Option<String>,
    pub accept_ranges: Option<String>,
    pub content_disposition: Option<String>,
}

/// An optional text taken by view.
pub open spec fn opt_view(o: Option<String>) -> Option<Seq<char>> {
    match o {
        Some(s) => Some(s@),
        None => None,
    }
}

/// `true` when `s` equals `bytes` ignoring ASCII case.
fn is_bytes_ignoring_case(s: &str) -> (r: bool)
    ensures
        r == (s@.map_values(|c: char| ascii_lower_spec(c)) == "bytes"@),
{
    let v = chars_of(s);
    let mut low: Vec<char> = Vec::new();
    let n = v.len();
    for i in 0..n
        invariant
            n == v@.len(),
            low@ == v@.take(i as int).map_values(|c: char| ascii_lower_spec(c)),
    {
        low.push(ascii_lower(v[i]));
        assert(v@.take(i + 1).map_values(|c: char| ascii_lower_spec(c)) =~= v@.take(
            i as int,
        ).map_values(|c: char| ascii_lower_spec(c)).push(ascii_lower_spec(v@[i as int])));
    }
    assert(v@.take(n as int) =~= v@);
    eq_lit(&low, "bytes")
}

/// Reads the resource metadata from response headers: the trimmed,
/// numeric `Content-Length`; the text headers as they are; `Accept-Ranges`
/// equal to `bytes` in any ASCII case; and the file name
/// `Content-Disposition` suggests.
pub fn extract_resource_info(h: ResponseHeaders, final_url: Url) -> (r: ResourceInfo)
    ensures
        r.final_url@ == final_url@,
        r.content_length == content_length_of(opt_view(h.content_length)),
        r.content_type == h.content_type,
        r.etag == h.etag,
        r.last_modified == h.last_modified,
        r.accepts_ranges == accepts_byte_ranges(opt_view(h.accept_ranges)),
        opt_view(r.suggested_filename) == (match opt_view(h.content_disposition) {
            Some(v) => disposition_filename(v),
            None => None,
        }),
{
    let content_length = match &h.content_length {
        Some(t) => {
            let v = chars_of(t.as_str());
            let tv = trim_chars(&v, false);
            parse_u64(&tv)
        },
        None => None,
    };
    let accepts_ranges = match &h.accept_ranges {
        Some(t) => is_bytes_ignoring_case(t.as_str()),
        None => false,
    };
    let suggested_filename = match &h.content_disposition {
        Some(t) => parse_content_disposition_filename(t.as_str()),
        None => None,
    };
    ResourceInfo {
        final_url,
        content_length,
        content_type: h.content_type,
        etag: h.etag,
        last_modified: h.last_modified,
        accepts_ranges,
        suggested_filename,
    }
}

/// Hexadecimal digits are read in either case: `0`-`9` are 0 to 9, `a`-`f`
/// and `A`-`F` are 10 to 15, and no other byte is a digit.
pub proof fn law_hex_digits_in_either_case(b: u8)
    ensures
        0x30 <= b <= 0x39 ==> hex_value(b) == Some((b - 0x30) as u8),
        0x61 <= b <= 0x66 ==> hex_value(b) == Some((b - 0x61 + 10) as u8),
        0x41 <= b <= 0x46 ==> hex_value(b) == Some((b - 0x41 + 10) as u8),
        0x61 <= b <= 0x66 ==> hex_value(b) == hex_value((b - 32) as u8),
        !(0x30 <= b <= 0x39 || 0x61 <= b <= 0x66 || 0x41 <= b <= 0x46) ==> hex_value(b) is None,
{
}

/// An escape `%` and two hexadecimal digits (of either case) decodes to the
/// one byte the digits denote, and the rest is decoded on its own.
pub proof fn law_escapes_decode_to_their_byte(h: u8, l: u8, rest: Seq<u8>)
    requires
        hex_value(h) is Some,
        hex_value(l) is Some,
    ensures
        pct_decoded(seq![0x25u8, h, l] + rest) == seq![(hex_value(h)->0 * 16 + hex_value(l)->0) as u8]
            + pct_decoded(rest),
{
    let b = seq![0x25u8, h, l] + rest;
    assert(b[0] == 0x25u8 && b[1] == h && b[2] == l);
    assert(b.skip(3) =~= rest);
}

/// Escapes whose letters differ only in case decode alike: lower-case hex
/// digits are decoded as the upper-case ones are.
pub proof fn law_escape_case_does_not_matter(h: u8, l: u8, rest: Seq<u8>)
    requires
        0x61 <= h <= 0x66,
        hex_value(l) is Some,
    ensures
        pct_decoded(seq![0x25u8, h, l] + rest) == pct_decoded(seq![0x25u8, (h - 32) as u8, l] + rest),
        pct_decoded(seq![0x25u8, l, h] + rest) == pct_decoded(seq![0x25u8, l, (h - 32) as u8] + rest),
{
    law_escapes_decode_to_their_byte(h, l, rest);
    law_escapes_decode_to_their_byte((h - 32) as u8, l, rest);
    law_escapes_decode_to_their_byte(l, h, rest);
    law_escapes_decode_to_their_byte(l, (h - 32) as u8, rest);
}

} // verus!
