//! Download identity and the protocol tag stored on each download.

use vstd::prelude::*;

use crate::error::Error;
use crate::text::{push_str, str_equal};

verus! {

/// Identifies which protocol a download uses.
///
/// This is the only protocol tag stored on a download; protocol-specific
/// details live in the download's opaque `backend_meta` text.
#[derive(Debug, Clone, Copy, PartialEq, Eq, Hash, Structural)]
pub enum BackendKind {
    /// HTTP/HTTPS transfers.
    Http,
    /// BitTorrent transfers.
    Torrent,
}

/// The stored text form of a backend kind.
pub open spec fn kind_text(k: BackendKind) -> Seq<char> {
    match k {
        BackendKind::Http => "http"@,
        BackendKind::Torrent => "torrent"@,
    }
}

/// The backend kind whose text form is `t`, if any.
pub open spec fn kind_from_text(t: Seq<char>) -> Option<BackendKind> {
    if t == "http"@ {
        Some(BackendKind::Http)
    } else if t == "torrent"@ {
        Some(BackendKind::Torrent)
    } else {
        None
    }
}

impl BackendKind {
    /// The stored text form (`http`, `torrent`).
    pub fn as_str(self) -> (r: &'static str)
        ensures
            r@ == kind_text(self),
    {
        match self {
            BackendKind::Http => "http",
            BackendKind::Torrent => "torrent",
        }
    }

    /// Parses a backend kind from its stored text form.
    ///
    /// An unknown kind is refused with [`Error::Internal`].
    pub fn parse(s: &str) -> (r: Result<BackendKind, Error>)
        ensures
            kind_from_text(s@) matches Some(k) ==> r == Ok::<BackendKind, Error>(k),
            kind_from_text(s@) is None ==> (r matches Err(Error::Internal(m)) && m@
                == "unknown backend kind: "@ + s@),
    {
        if str_equal(s, "http") {
            Ok(BackendKind::Http)
        } else if str_equal(s, "torrent") {
            Ok(BackendKind::Torrent)
        } else {
            let mut m = String::new();
            push_str(&mut m, "unknown backend kind: ");
            push_str(&mut m, s);
            Err(Error::Internal(m))
        }
    }
}

/// Every backend kind's text form parses back to it, and the two forms differ.
pub proof fn law_kind_text_round_trip(k: BackendKind)
    ensures
        kind_from_text(kind_text(k)) == Some(k),
{
    reveal_strlit("http");
    reveal_strlit("torrent");
    assert("http"@.len() != "torrent"@.len());
}

/// The value `uuid::Uuid::parse_str` gives for a text: the 128-bit value, or
/// the text of its error.
pub uninterp spec fn uuid_parse(s: Seq<char>) -> Result<u128, Seq<char>>;

/// `uuid::Uuid::new_v4`, as a 128-bit value.
///
/// Trusted: the value is random; the uuid source sets the version field
/// (bits 76..80) to 4 and the variant field (bits 62..64) to the RFC 4122
/// variant, which is all that is claimed of it.
#[verifier::external_body]
pub(crate) fn uuid_new_v4() -> (r: u128)
    ensures
        (r >> 76u128) & 0xfu128 == 4,
        (r >> 62u128) & 0x3u128 == 2,
{
    uuid::Uuid::new_v4().as_u128()
}

/// A parse result with its error text taken by view.
pub open spec fn parse_result_view(r: Result<u128, String>) -> Result<u128, Seq<char>> {
    match r {
        Ok(v) => Ok(v),
        Err(e) => Err(e@),
    }
}

/// `true` for a lower-case hexadecimal digit.
pub open spec fn is_lower_hex(c: char) -> bool {
    (48 <= c as u32 <= 57) || (97 <= c as u32 <= 102)
}

/// `true` when a text has the hyphenated lower-case shape of a UUID:
/// 36 characters, hyphens at positions 8, 13, 18 and 23, lower-case
/// hexadecimal digits everywhere else.
pub open spec fn hyphenated_shape(t: Seq<char>) -> bool {
    t.len() == 36 && forall|i: int|
        0 <= i < 36 ==> (if i == 8 || i == 13 || i == 18 || i == 23 {
            t[i] == '-'
        } else {
            is_lower_hex(#[trigger] t[i])
        })
}

/// `uuid::Uuid::parse_str`.
///
/// Trusted: the result is whatever the uuid parser gives for the text, named
/// `uuid_parse`; the error is carried as its display text. A text in the
/// hyphenated lower-case shape is read digit by digit (the uuid source's
/// `parse_hyphenated`), so it parses, to the value whose hyphenated form is
/// that text.
#[verifier::external_body]
pub(crate) fn uuid_parse_str(s: &str) -> (r: Result<u128, String>)
    ensures
        parse_result_view(r) == uuid_parse(s@),
        hyphenated_shape(s@) ==> (r is Ok && uuid_hyphenated(r->Ok_0) == s@),
{
    match uuid::Uuid::parse_str(s) {
        Ok(u) => Ok(u.as_u128()),
        Err(e) => Err(e.to_string()),
    }
}

/// Lower-case hexadecimal digit for `d < 16`.
pub open spec fn hex_digit(d: u128) -> char {
    if d < 10 {
        ((d + 48) as u32) as char
    } else {
        ((d + 87) as u32) as char
    }
}

/// Which of the 32 nibbles (most significant first) the character at
/// position `i` of the hyphenated form shows.
pub open spec fn nibble_at(i: int) -> int {
    if i < 8 {
        i
    } else if i < 13 {
        i - 1
    } else if i < 18 {
        i - 2
    } else if i < 23 {
        i - 3
    } else {
        i - 4
    }
}

/// The hyphenated lower-case text of a UUID (`8-4-4-4-12` hex digits), as
/// `uuid::Uuid`'s `Display` writes it.
pub open spec fn uuid_hyphenated(v: u128) -> Seq<char> {
    Seq::new(
        36,
        |i: int|
            if i == 8 || i == 13 || i == 18 || i == 23 {
                '-'
            } else {
                hex_digit((v >> ((4 * (31 - nibble_at(i))) as u128)) & 0xfu128)
            },
    )
}

/// The character code of a hexadecimal digit.
proof fn lemma_hex_digit_code(d: u128)
    requires
        d < 16,
    ensures
        hex_digit(d) as u32 == (if d < 10 {
            d + 48
        } else {
            d + 87
        }),
{
    if d < 10 {
        assert((((d + 48) as u32) as char) as u32 == d + 48);
    } else {
        assert((((d + 87) as u32) as char) as u32 == d + 87);
    }
}

/// The nibble `k` (most significant first) of a 128-bit value.
pub open spec fn nibble(v: u128, k: int) -> u128 {
    (v >> ((4 * (31 - k)) as u128)) & 0xfu128
}

/// A nibble is below 16.
proof fn lemma_nibble_small(v: u128, k: int)
    ensures
        nibble(v, k) < 16,
{
    let sh = (4 * (31 - k)) as u128;
    let d = (v >> sh) & 0xfu128;
    assert(d < 16) by (bit_vector)
        requires
            d == (v >> sh) & 0xfu128,
    ;
}

/// A value is determined by its 32 nibbles.
proof fn lemma_nibbles_determine(a: u128, b: u128)
    requires
        forall|k: int| 0 <= k < 32 ==> #[trigger] nibble(a, k) == nibble(b, k),
    ensures
        a == b,
{
    assert(nibble(a, 0) == nibble(b, 0));
    assert(nibble(a, 0) == (a >> 124u128) & 0xfu128);
    assert(nibble(b, 0) == (b >> 124u128) & 0xfu128);
    assert(nibble(a, 1) == nibble(b, 1));
    assert(nibble(a, 1) == (a >> 120u128) & 0xfu128);
    assert(nibble(b, 1) == (b >> 120u128) & 0xfu128);
    assert(nibble(a, 2) == nibble(b, 2));
    assert(nibble(a, 2) == (a >> 116u128) & 0xfu128);
    assert(nibble(b, 2) == (b >> 116u128) & 0xfu128);
    assert(nibble(a, 3) == nibble(b, 3));
    assert(nibble(a, 3) == (a >> 112u128) & 0xfu128);
    assert(nibble(b, 3) == (b >> 112u128) & 0xfu128);
    assert(nibble(a, 4) == nibble(b, 4));
    assert(nibble(a, 4) == (a >> 108u128) & 0xfu128);
    assert(nibble(b, 4) == (b >> 108u128) & 0xfu128);
    assert(nibble(a, 5) == nibble(b, 5));
    assert(nibble(a, 5) == (a >> 104u128) & 0xfu128);
    assert(nibble(b, 5) == (b >> 104u128) & 0xfu128);
    assert(nibble(a, 6) == nibble(b, 6));
    assert(nibble(a, 6) == (a >> 100u128) & 0xfu128);
    assert(nibble(b, 6) == (b >> 100u128) & 0xfu128);
    assert(nibble(a, 7) == nibble(b, 7));
    assert(nibble(a, 7) == (a >> 96u128) & 0xfu128);
    assert(nibble(b, 7) == (b >> 96u128) & 0xfu128);
    assert(nibble(a, 8) == nibble(b, 8));
    assert(nibble(a, 8) == (a >> 92u128) & 0xfu128);
    assert(nibble(b, 8) == (b >> 92u128) & 0xfu128);
    assert(nibble(a, 9) == nibble(b, 9));
    assert(nibble(a, 9) == (a >> 88u128) & 0xfu128);
    assert(nibble(b, 9) == (b >> 88u128) & 0xfu128);
    assert(nibble(a, 10) == nibble(b, 10));
    assert(nibble(a, 10) == (a >> 84u128) & 0xfu128);
    assert(nibble(b, 10) == (b >> 84u128) & 0xfu128);
    assert(nibble(a, 11) == nibble(b, 11));
    assert(nibble(a, 11) == (a >> 80u128) & 0xfu128);
    assert(nibble(b, 11) == (b >> 80u128) & 0xfu128);
    assert(nibble(a, 12) == nibble(b, 12));
    assert(nibble(a, 12) == (a >> 76u128) & 0xfu128);
    assert(nibble(b, 12) == (b >> 76u128) & 0xfu128);
    assert(nibble(a, 13) == nibble(b, 13));
    assert(nibble(a, 13) == (a >> 72u128) & 0xfu128);
    assert(nibble(b, 13) == (b >> 72u128) & 0xfu128);
    assert(nibble(a, 14) == nibble(b, 14));
    assert(nibble(a, 14) == (a >> 68u128) & 0xfu128);
    assert(nibble(b, 14) == (b >> 68u128) & 0xfu128);
    assert(nibble(a, 15) == nibble(b, 15));
    assert(nibble(a, 15) == (a >> 64u128) & 0xfu128);
    assert(nibble(b, 15) == (b >> 64u128) & 0xfu128);
    assert(nibble(a, 16) == nibble(b, 16));
    assert(nibble(a, 16) == (a >> 60u128) & 0xfu128);
    assert(nibble(b, 16) == (b >> 60u128) & 0xfu128);
    assert(nibble(a, 17) == nibble(b, 17));
    assert(nibble(a, 17) == (a >> 56u128) & 0xfu128);
    assert(nibble(b, 17) == (b >> 56u128) & 0xfu128);
    assert(nibble(a, 18) == nibble(b, 18));
    assert(nibble(a, 18) == (a >> 52u128) & 0xfu128);
    assert(nibble(b, 18) == (b >> 52u128) & 0xfu128);
    assert(nibble(a, 19) == nibble(b, 19));
    assert(nibble(a, 19) == (a >> 48u128) & 0xfu128);
    assert(nibble(b, 19) == (b >> 48u128) & 0xfu128);
    assert(nibble(a, 20) == nibble(b, 20));
    assert(nibble(a, 20) == (a >> 44u128) & 0xfu128);
    assert(nibble(b, 20) == (b >> 44u128) & 0xfu128);
    assert(nibble(a, 21) == nibble(b, 21));
    assert(nibble(a, 21) == (a >> 40u128) & 0xfu128);
    assert(nibble(b, 21) == (b >> 40u128) & 0xfu128);
    assert(nibble(a, 22) == nibble(b, 22));
    assert(nibble(a, 22) == (a >> 36u128) & 0xfu128);
    assert(nibble(b, 22) == (b >> 36u128) & 0xfu128);
    assert(nibble(a, 23) == nibble(b, 23));
    assert(nibble(a, 23) == (a >> 32u128) & 0xfu128);
    assert(nibble(b, 23) == (b >> 32u128) & 0xfu128);
    assert(nibble(a, 24) == nibble(b, 24));
    assert(nibble(a, 24) == (a >> 28u128) & 0xfu128);
    assert(nibble(b, 24) == (b >> 28u128) & 0xfu128);
    assert(nibble(a, 25) == nibble(b, 25));
    assert(nibble(a, 25) == (a >> 24u128) & 0xfu128);
    assert(nibble(b, 25) == (b >> 24u128) & 0xfu128);
    assert(nibble(a, 26) == nibble(b, 26));
    assert(nibble(a, 26) == (a >> 20u128) & 0xfu128);
    assert(nibble(b, 26) == (b >> 20u128) & 0xfu128);
    assert(nibble(a, 27) == nibble(b, 27));
    assert(nibble(a, 27) == (a >> 16u128) & 0xfu128);
    assert(nibble(b, 27) == (b >> 16u128) & 0xfu128);
    assert(nibble(a, 28) == nibble(b, 28));
    assert(nibble(a, 28) == (a >> 12u128) & 0xfu128);
    assert(nibble(b, 28) == (b >> 12u128) & 0xfu128);
    assert(nibble(a, 29) == nibble(b, 29));
    assert(nibble(a, 29) == (a >> 8u128) & 0xfu128);
    assert(nibble(b, 29) == (b >> 8u128) & 0xfu128);
    assert(nibble(a, 30) == nibble(b, 30));
    assert(nibble(a, 30) == (a >> 4u128) & 0xfu128);
    assert(nibble(b, 30) == (b >> 4u128) & 0xfu128);
    assert(nibble(a, 31) == nibble(b, 31));
    assert(nibble(a, 31) == (a >> 0u128) & 0xfu128);
    assert(nibble(b, 31) == (b >> 0u128) & 0xfu128);
    assert(a == b) by (bit_vector)
        requires
            (a >> 124u128) & 0xfu128 == (b >> 124u128) & 0xfu128,
            (a >> 120u128) & 0xfu128 == (b >> 120u128) & 0xfu128,
            (a >> 116u128) & 0xfu128 == (b >> 116u128) & 0xfu128,
            (a >> 112u128) & 0xfu128 == (b >> 112u128) & 0xfu128,
            (a >> 108u128) & 0xfu128 == (b >> 108u128) & 0xfu128,
            (a >> 104u128) & 0xfu128 == (b >> 104u128) & 0xfu128,
            (a >> 100u128) & 0xfu128 == (b >> 100u128) & 0xfu128,
            (a >> 96u128) & 0xfu128 == (b >> 96u128) & 0xfu128,
            (a >> 92u128) & 0xfu128 == (b >> 92u128) & 0xfu128,
            (a >> 88u128) & 0xfu128 == (b >> 88u128) & 0xfu128,
            (a >> 84u128) & 0xfu128 == (b >> 84u128) & 0xfu128,
            (a >> 80u128) & 0xfu128 == (b >> 80u128) & 0xfu128,
            (a >> 76u128) & 0xfu128 == (b >> 76u128) & 0xfu128,
            (a >> 72u128) & 0xfu128 == (b >> 72u128) & 0xfu128,
            (a >> 68u128) & 0xfu128 == (b >> 68u128) & 0xfu128,
            (a >> 64u128) & 0xfu128 == (b >> 64u128) & 0xfu128,
            (a >> 60u128) & 0xfu128 == (b >> 60u128) & 0xfu128,
            (a >> 56u128) & 0xfu128 == (b >> 56u128) & 0xfu128,
            (a >> 52u128) & 0xfu128 == (b >> 52u128) & 0xfu128,
            (a >> 48u128) & 0xfu128 == (b >> 48u128) & 0xfu128,
            (a >> 44u128) & 0xfu128 == (b >> 44u128) & 0xfu128,
            (a >> 40u128) & 0xfu128 == (b >> 40u128) & 0xfu128,
            (a >> 36u128) & 0xfu128 == (b >> 36u128) & 0xfu128,
            (a >> 32u128) & 0xfu128 == (b >> 32u128) & 0xfu128,
            (a >> 28u128) & 0xfu128 == (b >> 28u128) & 0xfu128,
            (a >> 24u128) & 0xfu128 == (b >> 24u128) & 0xfu128,
            (a >> 20u128) & 0xfu128 == (b >> 20u128) & 0xfu128,
            (a >> 16u128) & 0xfu128 == (b >> 16u128) & 0xfu128,
            (a >> 12u128) & 0xfu128 == (b >> 12u128) & 0xfu128,
            (a >> 8u128) & 0xfu128 == (b >> 8u128) & 0xfu128,
            (a >> 4u128) & 0xfu128 == (b >> 4u128) & 0xfu128,
            (a >> 0u128) & 0xfu128 == (b >> 0u128) & 0xfu128,
    ;
}

/// The hyphenated text of a UUID has the hyphenated shape, and tells the
/// value: two values with the same text are the same value.
pub proof fn law_id_text_identifies(a: u128, b: u128)
    ensures
        hyphenated_shape(uuid_hyphenated(a)),
        uuid_hyphenated(a) == uuid_hyphenated(b) ==> a == b,
{
    let ta = uuid_hyphenated(a);
    let tb = uuid_hyphenated(b);
    assert forall|i: int| 0 <= i < 36 && !(i == 8 || i == 13 || i == 18 || i == 23) implies is_lower_hex(
        #[trigger] ta[i],
    ) by {
        lemma_nibble_small(a, nibble_at(i));
        lemma_hex_digit_code(nibble(a, nibble_at(i)));
    }
    if ta == tb {
        assert forall|k: int| 0 <= k < 32 implies #[trigger] nibble(a, k) == nibble(b, k) by {
            let i = if k < 8 {
                k
            } else if k < 12 {
                k + 1
            } else if k < 16 {
                k + 2
            } else if k < 20 {
                k + 3
            } else {
                k + 4
            };
            assert(nibble_at(i) == k);
            assert(ta[i] == tb[i]);
            lemma_nibble_small(a, k);
            lemma_nibble_small(b, k);
            lemma_hex_digit_code(nibble(a, k));
            lemma_hex_digit_code(nibble(b, k));
        }
        lemma_nibbles_determine(a, b);
    }
}

/// A stable, process-independent identifier for a download (a UUID).
#[derive(Debug, Clone, Copy, PartialEq, Eq, Hash, Structural)]
pub struct DownloadId(pub u128);

impl DownloadId {
    /// Generates a new random (version 4) identifier.
    pub fn new() -> (r: DownloadId)
        ensures
            (r.0 >> 76u128) & 0xfu128 == 4,
            (r.0 >> 62u128) & 0x3u128 == 2,
    {
        DownloadId(uuid_new_v4())
    }

    /// The textual (hyphenated, lower-case) form of the identifier, as
    /// `uuid::Uuid`'s `Display` writes it.
    pub fn to_text(&self) -> (r: String)
        ensures
            r@ == uuid_hyphenated(self.0),
            hyphenated_shape(r@),
    {
        proof {
            law_id_text_identifies(self.0, self.0);
        }
        let v = self.0;
        let mut out: Vec<char> = Vec::new();
        for i in 0..36usize
            invariant
                out@ == uuid_hyphenated(v).take(i as int),
        {
            if i == 8 || i == 13 || i == 18 || i == 23 {
                out.push('-');
            } else {
                let k: usize = if i < 8 {
                    i
                } else if i < 13 {
                    i - 1
                } else if i < 18 {
                    i - 2
                } else if i < 23 {
                    i - 3
                } else {
                    i - 4
                };
                assert(k == nibble_at(i as int));
                let shift: u128 = (4 * (31 - k)) as u128;
                let d: u128 = (v >> shift) & 0xf;
                assert(d < 16) by (bit_vector)
                    requires
                        d == (v >> shift) & 0xf,
                ;
                let c = if d < 10 {
                    ((d + 48) as u8) as char
                } else {
                    ((d + 87) as u8) as char
                };
                assert(c == hex_digit(d));
                out.push(c);
            }
            assert(uuid_hyphenated(v).take(i + 1) =~= uuid_hyphenated(v).take(i as int).push(
                uuid_hyphenated(v)[i as int],
            ));
        }
        assert(uuid_hyphenated(v).take(36) =~= uuid_hyphenated(v));
        crate::text::string_of(&out)
    }

    /// Parses a download id from its textual form.
    ///
    /// A text that is not a UUID is refused with [`Error::Internal`]; the
    /// text `to_text` writes reads back as the same id.
    pub fn parse(s: &str) -> (r: Result<DownloadId, Error>)
        ensures
            match uuid_parse(s@) {
                Ok(v) => r == Ok::<DownloadId, Error>(DownloadId(v)),
                Err(m) => r matches Err(Error::Internal(t)) && t@ == "invalid download id: "@ + m,
            },
            forall|v: u128| s@ == #[trigger] uuid_hyphenated(v) ==> r == Ok::<DownloadId, Error>(DownloadId(v)),
    {
        let res = uuid_parse_str(s);
        proof {
            assert forall|v: u128| s@ == #[trigger] uuid_hyphenated(v) implies res == Ok::<u128, String>(v) by {
                law_id_text_identifies(v, v);
                law_id_text_identifies(res->Ok_0, v);
            }
        }
        match res {
            Ok(v) => Ok(DownloadId(v)),
            Err(e) => {
                let mut t = String::new();
                push_str(&mut t, "invalid download id: ");
                push_str(&mut t, e.as_str());
                Err(Error::Internal(t))
            },
        }
    }
}

} // verus!
