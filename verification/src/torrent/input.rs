//! Recognition of torrent inputs: magnet URIs, HTTP/HTTPS `.torrent` URLs
//! and local `.torrent` files.

use vstd::prelude::*;

use crate::text::{chars_of, has_prefix, push_str, str_equal, strip_prefix_chars, string_of};
use crate::torrent::error::Error;
use crate::url::{url_parse, Url};

verus! {

/// Where the torrent of a download is to be read from.
pub enum InputSource {
    /// A magnet URI.
    Magnet { uri: String },
    /// A remote `.torrent` URL.
    TorrentUrl { url: String },
    /// A local `.torrent` file, by path.
    LocalFile { path: String },
}

/// Parsed input ready for inspection or adding to the session.
pub enum ParsedInput {
    /// A magnet URI.
    Magnet { uri: String },
    /// The bytes of a torrent file.
    TorrentBytes { bytes: Vec<u8> },
    /// A remote `.torrent` URL.
    TorrentUrl { url: String },
}

/// The value of the first query pair whose key is `key`.
pub open spec fn first_value_for(q: Seq<(Seq<char>, Seq<char>)>, key: Seq<char>) -> Option<
    Seq<char>,
>
    decreases q.len(),
{
    if q.len() == 0 {
        None
    } else if q[0].0 == key {
        Some(q[0].1)
    } else {
        first_value_for(q.drop_first(), key)
    }
}

/// What `str::to_lowercase` gives for a text (Unicode lowercase mapping).
pub uninterp spec fn unicode_lowercase(s: Seq<char>) -> Seq<char>;

/// `true` when every character of a text is ASCII.
pub open spec fn is_ascii_text(s: Seq<char>) -> bool {
    forall|i: int| 0 <= i < s.len() ==> (#[trigger] s[i] as u32) < 0x80
}

/// A text with its ASCII capitals replaced by their small letters.
pub open spec fn ascii_lowered(s: Seq<char>) -> Seq<char> {
    s.map_values(|c: char| crate::text::ascii_lower_spec(c))
}

/// `str::to_lowercase`.
///
/// Trusted: the result is named `unicode_lowercase` of the text. On ASCII
/// text the Unicode lowercase mapping lowers `A`..`Z` and keeps every other
/// character, as the standard library documents, so there the result is
/// the ASCII lowercase of the text.
#[verifier::external_body]
pub(crate) fn to_lowercase(s: &str) -> (r: String)
    ensures
        r@ == unicode_lowercase(s@),
        is_ascii_text(s@) ==> r@ == ascii_lowered(s@),
{
    s.to_lowercase()
}

/// The info hash a magnet URI names: the value of its first `xt` query
/// parameter after `urn:btih:`, lower-cased. `None` when the URI does not
/// parse, has no `xt` parameter, or that parameter is not a BitTorrent
/// info hash.
pub open spec fn magnet_info_hash(uri: Seq<char>) -> Option<Seq<char>> {
    match url_parse(uri) {
        Err(_) => None,
        Ok(v) => match first_value_for(v.query, "xt"@) {
            None => None,
            Some(x) => if has_prefix(x, "urn:btih:"@) {
                Some(unicode_lowercase(x.skip(9)))
            } else {
                None
            },
        },
    }
}

/// Extracts the info hash from a magnet URI.
pub fn extract_info_hash_from_magnet(uri: &str) -> (r: Option<String>)
    ensures
        r matches Some(h) ==> magnet_info_hash(uri@) == Some(h@),
        r is None ==> magnet_info_hash(uri@) is None,
{
    let parsed = match Url::parse(uri) {
        Ok(u) => u,
        Err(_) => {
            return None;
        },
    };
    let pairs = parsed.query_pairs();
    let ghost q = parsed@.query;
    let n = pairs.len();
    let mut i: usize = 0;
    assert(q.skip(0) =~= q);
    while i < n
        invariant
            n == pairs@.len(),
            q == crate::url::pairs_view(pairs@),
            url_parse(uri@) == Ok::<crate::url::UrlView, Seq<char>>(parsed@),
            q == parsed@.query,
            i <= n,
            first_value_for(q, "xt"@) == first_value_for(q.skip(i as int), "xt"@),
        decreases n - i,
    {
        proof {
            reveal_strlit("xt");
            reveal_strlit("urn:btih:");
        }
        assert(q.skip(i as int)[0] == q[i as int]);
        assert(q.skip(i as int).drop_first() =~= q.skip(i + 1));
        if str_equal(pairs[i].0.as_str(), "xt") {
            let v = chars_of(pairs[i].1.as_str());
            assert(v@ == q[i as int].1);
            assert(q[i as int].0 == "xt"@);
            assert(first_value_for(q.skip(i as int), "xt"@) == Some(q[i as int].1));
            assert(magnet_info_hash(uri@) == (if has_prefix(v@, "urn:btih:"@) {
                Some(unicode_lowercase(v@.skip(9)))
            } else {
                None
            }));
            assert("urn:btih:"@.len() == 9);
            let res = match strip_prefix_chars(&v, "urn:btih:") {
                Some(rest) => {
                    let hash = string_of(&rest);
                    Some(to_lowercase(hash.as_str()))
                },
                None => None,
            };
            return res;
        }
        i = i + 1;
    }
    assert(q.skip(n as int) =~= Seq::<(Seq<char>, Seq<char>)>::empty());
    None
}

/// How a URL is read as a torrent input, given the local path a `file:` URL
/// denotes (`file_path`, consulted for `file:` URLs only): magnet URIs must
/// name an info hash, `http`/`https` URLs are fetched, `file:` URLs must
/// denote a local path, and any other scheme is refused.
pub fn input_from(url: &Url, file_path: Option<String>) -> (r: Result<InputSource, Error>)
    ensures
        url@.scheme == "magnet"@ && magnet_info_hash(url@.text) is Some ==> (r matches Ok(
            InputSource::Magnet { uri },
        ) && uri@ == url@.text),
        url@.scheme == "magnet"@ && magnet_info_hash(url@.text) is None ==> (r matches Err(
            Error::Internal(m),
        ) && m@ == "magnet missing info_hash"@),
        (url@.scheme == "http"@ || url@.scheme == "https"@) ==> (r matches Ok(
            InputSource::TorrentUrl { url: u },
        ) && u@ == url@.text),
        url@.scheme == "file"@ && file_path is Some ==> (r matches Ok(
            InputSource::LocalFile { path },
        ) && path == file_path.unwrap()),
        url@.scheme == "file"@ && file_path is None ==> (r matches Err(Error::Internal(m)) && m@
            == "cannot convert file URL to path"@),
        !(url@.scheme == "magnet"@ || url@.scheme == "http"@ || url@.scheme == "https"@
            || url@.scheme == "file"@) ==> (r matches Err(Error::Internal(m)) && m@
            == "unsupported URL scheme: "@ + url@.scheme),
{
    proof {
        reveal_strlit("magnet");
        reveal_strlit("http");
        reveal_strlit("https");
        reveal_strlit("file");
        assert("magnet"@.len() == 6 && "https"@.len() == 5 && "http"@.len() == 4 && "file"@.len()
            == 4);
        assert("http"@ != "file"@) by {
            assert("http"@[0] != "file"@[0]);
        }
    }
    let scheme = url.scheme();
    if str_equal(scheme, "magnet") {
        match extract_info_hash_from_magnet(url.as_str()) {
            Some(_) => {
                let mut uri = String::new();
                push_str(&mut uri, url.as_str());
                Ok(InputSource::Magnet { uri })
            },
            None => {
                let mut m = String::new();
                push_str(&mut m, "magnet missing info_hash");
                Err(Error::Internal(m))
            },
        }
    } else if str_equal(scheme, "http") || str_equal(scheme, "https") {
        let mut u = String::new();
        push_str(&mut u, url.as_str());
        Ok(InputSource::TorrentUrl { url: u })
    } else if str_equal(scheme, "file") {
        match file_path {
            Some(path) => Ok(InputSource::LocalFile { path }),
            None => {
                let mut m = String::new();
                push_str(&mut m, "cannot convert file URL to path");
                Err(Error::Internal(m))
            },
        }
    } else {
        let mut m = String::new();
        push_str(&mut m, "unsupported URL scheme: ");
        push_str(&mut m, scheme);
        Err(Error::Internal(m))
    }
}

/// Recognizes a URL as a magnet URI, a torrent URL, or a local file.
///
/// The local path of a `file:` URL is whatever the url crate's conversion
/// gives on this platform; with that path the result is [`input_from`]'s.
pub fn resolve_input(url: &Url) -> (r: Result<InputSource, Error>)
    ensures
        url@.scheme == "magnet"@ && magnet_info_hash(url@.text) is Some ==> (r matches Ok(
            InputSource::Magnet { uri },
        ) && uri@ == url@.text),
        url@.scheme == "magnet"@ && magnet_info_hash(url@.text) is None ==> (r matches Err(
            Error::Internal(m),
        ) && m@ == "magnet missing info_hash"@),
        (url@.scheme == "http"@ || url@.scheme == "https"@) ==> (r matches Ok(
            InputSource::TorrentUrl { url: u },
        ) && u@ == url@.text),
        url@.scheme == "file"@ ==> (r matches Ok(InputSource::LocalFile { .. }) || (r matches Err(
            Error::Internal(m),
        ) && m@ == "cannot convert file URL to path"@)),
        !(url@.scheme == "magnet"@ || url@.scheme == "http"@ || url@.scheme == "https"@
            || url@.scheme == "file"@) ==> (r matches Err(Error::Internal(m)) && m@
            == "unsupported URL scheme: "@ + url@.scheme),
{
    let file_path = if str_equal(url.scheme(), "file") {
        url.file_path()
    } else {
        None
    };
    input_from(url, file_path)
}

} // verus!
