//! Parsed URLs.
//!
//! Parsing is done by the `url` crate; the library keeps the parts of the
//! parsed URL that its logic reads, as plain text.

use vstd::prelude::*;

use crate::error::Error;

verus! {

/// The parts of a parsed URL the library reads.
pub struct UrlView {
    /// The full serialization.
    pub text: Seq<char>,
    /// The scheme, lower-cased, without the `:`.
    pub scheme: Seq<char>,
    /// The path, percent-encoded.
    pub path: Seq<char>,
    /// The decoded `application/x-www-form-urlencoded` pairs of the query.
    pub query: Seq<(Seq<char>, Seq<char>)>,
}

/// An absolute URL, as parsed by the `url` crate.
pub struct Url {
    text: String,
    scheme: String,
    path: String,
    query: Vec<(String, String)>,
}

/// The character views of a list of text pairs.
pub open spec fn pairs_view(v: Seq<(String, String)>) -> Seq<(Seq<char>, Seq<char>)> {
    Seq::new(v.len(), |i: int| (v[i].0@, v[i].1@))
}

impl View for Url {
    type V = UrlView;

    closed spec fn view(&self) -> UrlView {
        UrlView {
            text: self.text@,
            scheme: self.scheme@,
            path: self.path@,
            query: pairs_view(self.query@),
        }
    }
}

/// What `url::Url::parse` gives for a text: the parsed URL's serialization,
/// scheme, path and query pairs, or the text of its error.
pub uninterp spec fn url_parse(s: Seq<char>) -> Result<UrlView, Seq<char>>;

/// A parse result taken by its view.
pub open spec fn url_result_view(r: Result<Url, String>) -> Result<UrlView, Seq<char>> {
    match r {
        Ok(u) => Ok(u@),
        Err(e) => Err(e@),
    }
}

/// `url::Url::parse`, with `as_str`, `scheme`, `path` and `query_pairs` of the
/// result.
///
/// Trusted: the result is whatever the url crate gives for the text, named
/// `url_parse`. A parsed URL's serialization parses again to the same URL:
/// the url source checks exactly this of every URL it builds
/// (`check_invariants`: the same serialization and the same scheme, path
/// and query offsets), so the scheme, path and query read again are the
/// same too. This is also what the `Url` type's invariant rests on.
#[verifier::external_body]
fn parse_with_url_crate(s: &str) -> (r: Result<Url, String>)
    ensures
        url_result_view(r) == url_parse(s@),
        r is Ok ==> url_parse(r->Ok_0@.text) == Ok::<UrlView, Seq<char>>(r->Ok_0@),
{
    match ::url::Url::parse(s) {
        Ok(u) => Ok(Url {
            text: u.as_str().to_string(),
            scheme: u.scheme().to_string(),
            path: u.path().to_string(),
            query: u.query_pairs().map(|(k, v)| (k.into_owned(), v.into_owned())).collect(),
        }),
        Err(e) => Err(e.to_string()),
    }
}

/// `url::Url::to_file_path` of the URL serialized as `text` (the crate reads
/// a serialization back as the same URL), the path given as text (lossily,
/// where it is not valid UTF-8).
///
/// Trusted: a text the url crate refuses gives no path, and so does a URL
/// without path segments (a path not starting with `/`, where
/// `path_segments` is `None` and the url source returns `Err`). What path a
/// URL with segments converts to is not stated: it depends on the platform
/// the library is built for (its host rules and path syntax).
#[verifier::external_body]
fn to_file_path(text: &str) -> (r: Option<String>)
    ensures
        url_parse(text@) is Err ==> r is None,
        url_parse(text@) matches Ok(v) && last_segment(v.path) is None ==> r is None,
{
    let u = ::url::Url::parse(text).ok()?;
    u.to_file_path().ok().map(|p| p.to_string_lossy().into_owned())
}

/// The last `/`-separated segment of a path that starts with `/`
/// (`path_segments().next_back()`); `None` when the path does not start
/// with `/` (a URL that cannot be a base).
pub open spec fn last_segment(path: Seq<char>) -> Option<Seq<char>> {
    if path.len() > 0 && path[0] == '/' {
        Some(crate::text::split_on(path.drop_first(), '/').last())
    } else {
        None
    }
}

impl Url {
    /// Every URL's serialization parses again to the same URL.
    #[verifier::type_invariant]
    spec fn reparses(self) -> bool {
        url_parse(self.text@) == Ok::<UrlView, Seq<char>>(self@)
    }

    /// The serialization of this URL parses again to the same URL.
    pub(crate) fn check_reparses(&self)
        ensures
            url_parse(self@.text) == Ok::<UrlView, Seq<char>>(self@),
    {
        proof {
            use_type_invariant(self);
        }
    }

    /// Parses an absolute URL.
    ///
    /// A text the url crate refuses is reported as [`Error::InvalidUrl`]
    /// carrying the crate's error text.
    pub fn parse(s: &str) -> (r: Result<Url, Error>)
        ensures
            url_parse(s@) matches Ok(v) ==> (r matches Ok(u) && u@ == v),
            url_parse(s@) matches Err(m) ==> (r matches Err(Error::InvalidUrl(t)) && t@ == m),
    {
        match parse_with_url_crate(s) {
            Ok(u) => Ok(u),
            Err(e) => Err(Error::InvalidUrl(e)),
        }
    }

    /// The full serialization.
    pub fn as_str(&self) -> (r: &str)
        ensures
            r@ == self@.text,
    {
        self.text.as_str()
    }

    /// The scheme, lower-cased, without the `:`.
    pub fn scheme(&self) -> (r: &str)
        ensures
            r@ == self@.scheme,
    {
        self.scheme.as_str()
    }

    /// The percent-encoded path.
    pub fn path(&self) -> (r: &str)
        ensures
            r@ == self@.path,
    {
        self.path.as_str()
    }

    /// The decoded query pairs, in order.
    pub fn query_pairs(&self) -> (r: &Vec<(String, String)>)
        ensures
            pairs_view(r@) == self@.query,
    {
        &self.query
    }

    /// The last path segment, or `None` for a URL that cannot be a base.
    pub fn last_path_segment(&self) -> (r: Option<String>)
        ensures
            r matches Some(t) ==> last_segment(self@.path) == Some(t@),
            r is None ==> last_segment(self@.path) is None,
    {
        let p = crate::text::chars_of(self.path.as_str());
        if p.len() > 0 && p[0] == '/' {
            let rest = crate::text::copy_range(&p, 1, p.len());
            assert(rest@ == p@.drop_first());
            let parts = crate::text::split_chars(&rest, '/');
            proof {
                crate::text::lemma_split_nonempty(rest@, '/');
            }
            let last = &parts[parts.len() - 1];
            assert(last@ == crate::text::views_of(parts@).last());
            Some(crate::text::string_of(last))
        } else {
            None
        }
    }

    /// The local path a `file:` URL denotes, as text; `None` where the URL
    /// denotes none on this platform, in particular where its text does not
    /// parse again or the URL has no path segments.
    pub fn file_path(&self) -> (r: Option<String>)
        ensures
            url_parse(self@.text) is Err ==> r is None,
            url_parse(self@.text) matches Ok(v) && last_segment(v.path) is None ==> r is None,
    {
        to_file_path(self.text.as_str())
    }

    /// A copy of this URL.
    pub fn duplicate(&self) -> (r: Url)
        ensures
            r@ == self@,
    {
        proof {
            use_type_invariant(self);
        }
        let mut q: Vec<(String, String)> = Vec::new();
        let n = self.query.len();
        for i in 0..n
            invariant
                n == self.query@.len(),
                q@.len() == i,
                forall|j: int| 0 <= j < i ==> q@[j] == self.query@[j],
        {
            let k = self.query[i].0.clone();
            let v = self.query[i].1.clone();
            q.push((k, v));
        }
        assert(q@ =~= self.query@);
        Url {
            text: self.text.clone(),
            scheme: self.scheme.clone(),
            path: self.path.clone(),
            query: q,
        }
    }
}

} // verus!
