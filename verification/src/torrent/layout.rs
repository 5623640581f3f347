//! Checks over the whole file list of a torrent before anything is written:
//! every path valid, no duplicates or case-insensitive collisions, nothing
//! outside the output folder.

use vstd::prelude::*;

use crate::components::{
    components, components_of, comps_view, prefix_text, push_component, Comp, Component,
};
use crate::text::{chars_of, has_infix, push_char, push_str, str_equal, string_of};
use crate::torrent::error::{map_error, speaks_of_path, torrent_error_text, Error};
use crate::torrent::input::{ascii_lowered, is_ascii_text, to_lowercase, unicode_lowercase};
use crate::torrent::path::{
    escapes, escapes_root, torrent_path_error_text, torrent_path_violation, validate_torrent_path,
};

verus! {

/// The index of the first path that [`validate_torrent_path`] refuses.
pub open spec fn first_invalid(ps: Seq<Seq<char>>, n: nat) -> Option<int>
    decreases n,
{
    if n == 0 {
        None
    } else {
        match first_invalid(ps, (n - 1) as nat) {
            Some(i) => Some(i),
            None => if torrent_path_violation(ps[n - 1]) is Some {
                Some(n - 1)
            } else {
                None
            },
        }
    }
}

/// The views of a list of strings.
pub open spec fn texts(v: Seq<String>) -> Seq<Seq<char>> {
    Seq::new(v.len(), |i: int| v[i]@)
}

/// Validates every file path of a torrent; the first refused one is
/// reported as `InvalidPath("<path>: <reason>")`.
pub fn validate_torrent_paths(paths: &Vec<String>) -> (r: Result<(), Error>)
    ensures
        first_invalid(texts(paths@), paths@.len()) is None ==> r is Ok,
        first_invalid(texts(paths@), paths@.len()) matches Some(i) ==> (r matches Err(
            Error::InvalidPath(m),
        ) && m@ == paths@[i]@ + ": "@ + torrent_path_error_text(
            torrent_path_violation(paths@[i]@).unwrap(),
        )),
{
    let n = paths.len();
    let ghost ps = texts(paths@);
    for i in 0..n
        invariant
            n == paths@.len(),
            ps == texts(paths@),
            first_invalid(ps, i as nat) is None,
    {
        match validate_torrent_path(paths[i].as_str()) {
            Ok(()) => {},
            Err(e) => {
                let mut m = String::new();
                push_str(&mut m, paths[i].as_str());
                push_str(&mut m, ": ");
                push_str(&mut m, e.message());
                assert(first_invalid(ps, (i + 1) as nat) == Some(i as int));
                proof {
                    lemma_first_invalid_stays(ps, (i + 1) as nat, n as nat);
                }
                return Err(Error::InvalidPath(m));
            },
        }
    }
    Ok(())
}

/// Once found among the first `a` paths, the first invalid path stays the
/// first among more.
proof fn lemma_first_invalid_stays(ps: Seq<Seq<char>>, a: nat, b: nat)
    requires
        a <= b,
        first_invalid(ps, a) is Some,
    ensures
        first_invalid(ps, b) == first_invalid(ps, a),
    decreases b,
{
    if b > a {
        lemma_first_invalid_stays(ps, a, (b - 1) as nat);
    }
}

/// The name of the ownership marker the library keeps in its folders.
pub open spec fn marker_name() -> Seq<char> {
    ".odm-owned"@
}

/// `true` when a path has a component named like the ownership marker.
pub open spec fn names_marker(cs: Seq<Component>) -> bool {
    exists|i: int| 0 <= i < cs.len() && #[trigger] cs[i] == Component::Normal(marker_name())
}

/// The first problem among the first `n` paths of the first pass: a path
/// using the marker name (reported by a fixed text), or a path equal to an
/// earlier one ignoring case (reported by its own text).
pub open spec fn first_seen_issue(ps: Seq<Seq<char>>, n: nat) -> Option<Seq<char>>
    decreases n,
{
    if n == 0 {
        None
    } else {
        match first_seen_issue(ps, (n - 1) as nat) {
            Some(t) => Some(t),
            None => {
                let p = ps[n - 1];
                if names_marker(components(p)) {
                    Some("reserved ODM ownership marker"@)
                } else if exists|j: int|
                    0 <= j < n - 1 && unicode_lowercase(#[trigger] ps[j]) == unicode_lowercase(p) {
                    Some(p)
                } else {
                    None
                }
            },
        }
    }
}

/// The lower-cased texts of the first `n` paths.
pub open spec fn lowered(ps: Seq<Seq<char>>, n: nat) -> Seq<Seq<char>> {
    Seq::new(n, |j: int| unicode_lowercase(ps[j]))
}

/// `true` when the first `k` components of a path name, ignoring case, one
/// of `names`.
pub open spec fn prefix_named(cs: Seq<Component>, k: nat, names: Seq<Seq<char>>) -> bool {
    names.contains(unicode_lowercase(prefix_text(cs, k)))
}

/// `true` when a proper prefix of path `i` equals, ignoring case, one of
/// the paths (a file would have to be a directory too).
pub open spec fn collides(ps: Seq<Seq<char>>, i: int) -> bool {
    let cs = components(ps[i]);
    exists|k: int| 1 <= k < cs.len() && #[trigger] prefix_named(cs, k as nat, lowered(ps, ps.len()))
}

/// The text of the first of the first `n` paths that collides.
pub open spec fn first_collision(ps: Seq<Seq<char>>, n: nat) -> Option<Seq<char>>
    decreases n,
{
    if n == 0 {
        None
    } else {
        match first_collision(ps, (n - 1) as nat) {
            Some(t) => Some(t),
            None => if collides(ps, n - 1) {
                Some(ps[n - 1])
            } else {
                None
            },
        }
    }
}

/// What a duplicate check of the whole list reports, if anything.
pub open spec fn duplicate_issue(ps: Seq<Seq<char>>) -> Option<Seq<char>> {
    match first_seen_issue(ps, ps.len()) {
        Some(t) => Some(t),
        None => first_collision(ps, ps.len()),
    }
}

/// Once found among the first `a` paths, a first-pass problem stays the
/// reported one among more.
proof fn lemma_seen_issue_stays(ps: Seq<Seq<char>>, a: nat, b: nat)
    requires
        a <= b,
        first_seen_issue(ps, a) is Some,
    ensures
        first_seen_issue(ps, b) == first_seen_issue(ps, a),
    decreases b,
{
    if b > a {
        lemma_seen_issue_stays(ps, a, (b - 1) as nat);
    }
}

/// Once found among the first `a` paths, a collision stays the reported one
/// among more.
proof fn lemma_collision_stays(ps: Seq<Seq<char>>, a: nat, b: nat)
    requires
        a <= b,
        first_collision(ps, a) is Some,
    ensures
        first_collision(ps, b) == first_collision(ps, a),
    decreases b,
{
    if b > a {
        lemma_collision_stays(ps, a, (b - 1) as nat);
    }
}

/// `true` when `x` is one of `v`.
fn contains_string(v: &Vec<String>, x: &String) -> (r: bool)
    ensures
        r == texts(v@).contains(x@),
{
    let n = v.len();
    for i in 0..n
        invariant
            n == v@.len(),
            forall|j: int| 0 <= j < i ==> v@[j]@ != x@,
    {
        if str_equal(v[i].as_str(), x.as_str()) {
            assert(texts(v@)[i as int] == x@);
            return true;
        }
    }
    false
}

/// `true` when a path has a component named like the ownership marker.
fn has_marker_component(cs: &Vec<Comp>) -> (r: bool)
    ensures
        r == names_marker(comps_view(cs@)),
{
    let ghost cv = comps_view(cs@);
    let n = cs.len();
    proof {
        reveal_strlit(".odm-owned");
    }
    for i in 0..n
        invariant
            n == cs@.len(),
            cv == comps_view(cs@),
            forall|j: int| 0 <= j < i ==> cv[j] != Component::Normal(marker_name()),
    {
        if let Comp::Normal(name) = &cs[i] {
            if crate::text::eq_lit(name, ".odm-owned") {
                assert(cv[i as int] == Component::Normal(marker_name()));
                return true;
            }
        }
        proof {
            reveal_strlit(".odm-owned");
        }
    }
    false
}

/// `true` when a proper prefix of one path names, ignoring case, one of
/// the paths in `seen`.
fn prefix_collides(path: &String, seen: &Vec<String>) -> (r: bool)
    ensures
        r == (exists|k: int|
            1 <= k < components(path@).len() && #[trigger] prefix_named(
                components(path@),
                k as nat,
                texts(seen@),
            )),
{
    let v = chars_of(path.as_str());
    let cs = components_of(&v);
    let ghost cv = comps_view(cs@);
    let m = cs.len();
    let mut prefix = String::new();
    for k in 0..m
        invariant
            m == cs@.len(),
            cv == comps_view(cs@),
            cv == components(path@),
            prefix@ == prefix_text(cv, k as nat),
            forall|kk: int|
                1 <= kk <= k && kk < m ==> !#[trigger] prefix_named(cv, kk as nat, texts(seen@)),
    {
        prefix = push_component(&prefix, &cs[k]);
        assert(prefix@ == prefix_text(cv, (k + 1) as nat));
        if k + 1 < m {
            let low = to_lowercase(prefix.as_str());
            if contains_string(seen, &low) {
                assert(prefix_named(cv, (k + 1) as nat, texts(seen@)));
                return true;
            }
        }
    }
    false
}

/// Validates that no two paths are equal ignoring case, that no path is a
/// proper prefix (ignoring case) of a path that is also a file, and that no
/// path uses the ownership marker's name.
pub fn validate_no_duplicates(paths: &Vec<String>) -> (r: Result<(), Error>)
    ensures
        duplicate_issue(texts(paths@)) is None ==> r is Ok,
        duplicate_issue(texts(paths@)) matches Some(t) ==> (r matches Err(Error::DuplicatePath(m))
            && m@ == t),
        ascii_case_duplicate(texts(paths@)) ==> r is Err,
{
    let n = paths.len();
    let ghost ps = texts(paths@);
    let mut seen: Vec<String> = Vec::new();
    for i in 0..n
        invariant
            n == paths@.len(),
            ps == texts(paths@),
            first_seen_issue(ps, i as nat) is None,
            texts(seen@) == lowered(ps, i as nat),
            forall|j: int| 0 <= j < i && is_ascii_text(#[trigger] ps[j]) ==> unicode_lowercase(ps[j])
                == ascii_lowered(ps[j]),
    {
        let v = chars_of(paths[i].as_str());
        let cs = components_of(&v);
        if has_marker_component(&cs) {
            let mut m = String::new();
            push_str(&mut m, "reserved ODM ownership marker");
            proof {
                assert(first_seen_issue(ps, (i + 1) as nat) == Some("reserved ODM ownership marker"@));
                lemma_seen_issue_stays(ps, (i + 1) as nat, n as nat);
            }
            return Err(Error::DuplicatePath(m));
        }
        let low = to_lowercase(paths[i].as_str());
        if contains_string(&seen, &low) {
            proof {
                let j = choose|j: int| 0 <= j < texts(seen@).len() && texts(seen@)[j] == low@;
                assert(lowered(ps, i as nat)[j] == unicode_lowercase(ps[j]));
                assert(0 <= j < i && unicode_lowercase(ps[j]) == unicode_lowercase(ps[i as int]));
                assert(first_seen_issue(ps, (i + 1) as nat) == Some(ps[i as int]));
                lemma_seen_issue_stays(ps, (i + 1) as nat, n as nat);
            }
            return Err(Error::DuplicatePath(paths[i].clone()));
        }
        proof {
            assert forall|j: int| 0 <= j < i implies unicode_lowercase(#[trigger] ps[j])
                != unicode_lowercase(ps[i as int]) by {
                assert(texts(seen@)[j] == unicode_lowercase(ps[j]));
            }
        }
        let ghost before = seen@;
        seen.push(low);
        assert forall|j: int| 0 <= j < i + 1 implies #[trigger] texts(seen@)[j] == lowered(
            ps,
            (i + 1) as nat,
        )[j] by {
            if j < i {
                assert(seen@[j] == before[j]);
                assert(texts(before)[j] == lowered(ps, i as nat)[j]);
            }
        }
        assert(texts(seen@) =~= lowered(ps, (i + 1) as nat));
        assert(ps[i as int] == paths@[i as int]@);
    }
    proof {
        lemma_seen_none_prefix(ps, n as nat);
        if ascii_case_duplicate(ps) {
            let (a, b) = choose|a: int, b: int|
                0 <= a < b < ps.len() && is_ascii_text(#[trigger] ps[a]) && is_ascii_text(#[trigger] ps[b])
                    && ascii_lowered(ps[a]) == ascii_lowered(ps[b]);
            assert(unicode_lowercase(ps[a]) != unicode_lowercase(ps[b]));
        }
    }
    for i in 0..n
        invariant
            n == paths@.len(),
            ps == texts(paths@),
            first_seen_issue(ps, n as nat) is None,
            texts(seen@) == lowered(ps, n as nat),
            first_collision(ps, i as nat) is None,
            !ascii_case_duplicate(ps),
    {
        assert(ps[i as int] == paths@[i as int]@);
        assert(lowered(ps, ps.len()) == texts(seen@));
        if prefix_collides(&paths[i], &seen) {
            proof {
                assert(collides(ps, i as int));
                assert(first_collision(ps, (i + 1) as nat) == Some(ps[i as int]));
                lemma_collision_stays(ps, (i + 1) as nat, n as nat);
            }
            return Err(Error::DuplicatePath(paths[i].clone()));
        }
    }
    Ok(())
}

/// `true` when two of the paths are ASCII text and equal ignoring ASCII
/// case (such as `A.bin` and `a.bin`).
pub open spec fn ascii_case_duplicate(ps: Seq<Seq<char>>) -> bool {
    exists|a: int, b: int|
        0 <= a < b < ps.len() && is_ascii_text(#[trigger] ps[a]) && is_ascii_text(#[trigger] ps[b])
            && ascii_lowered(ps[a]) == ascii_lowered(ps[b])
}

/// The index of the first of the first `n` paths that escapes `root`.
pub open spec fn first_escaping(root: Seq<char>, ps: Seq<Seq<char>>, n: nat) -> Option<int>
    decreases n,
{
    if n == 0 {
        None
    } else {
        match first_escaping(root, ps, (n - 1) as nat) {
            Some(i) => Some(i),
            None => if escapes(root, ps[n - 1]) {
                Some(n - 1)
            } else {
                None
            },
        }
    }
}

/// Once found among the first `a` paths, the first escaping path stays the
/// reported one among more.
proof fn lemma_escaping_stays(root: Seq<char>, ps: Seq<Seq<char>>, a: nat, b: nat)
    requires
        a <= b,
        first_escaping(root, ps, a) is Some,
    ensures
        first_escaping(root, ps, b) == first_escaping(root, ps, a),
    decreases b,
{
    if b > a {
        lemma_escaping_stays(root, ps, a, (b - 1) as nat);
    }
}

/// Validates that all paths stay within the output root; the first that
/// does not is reported with its text.
pub fn validate_root_confinement(root: &str, paths: &Vec<String>) -> (r: Result<(), Error>)
    ensures
        first_escaping(root@, texts(paths@), paths@.len()) is None ==> r is Ok,
        first_escaping(root@, texts(paths@), paths@.len()) matches Some(i) ==> (r matches Err(
            Error::PathEscapesRoot(m),
        ) && m@ == paths@[i]@),
{
    let n = paths.len();
    let ghost ps = texts(paths@);
    for i in 0..n
        invariant
            n == paths@.len(),
            ps == texts(paths@),
            first_escaping(root@, ps, i as nat) is None,
    {
        if escapes_root(root, paths[i].as_str()) {
            assert(first_escaping(root@, ps, (i + 1) as nat) == Some(i as int));
            proof {
                lemma_escaping_stays(root@, ps, (i + 1) as nat, n as nat);
            }
            return Err(Error::PathEscapesRoot(paths[i].clone()));
        }
    }
    Ok(())
}

/// A text that starts with `t` contains `t`.
proof fn lemma_infix_at_start(s: Seq<char>, t: Seq<char>)
    requires
        s.len() >= t.len(),
        s.take(t.len() as int) == t,
    ensures
        has_infix(s, t),
{
    assert(s.subrange(0, 0 + t.len() as int) == t);
}

/// The canonical error a rejected file list is reported as: the first
/// refused path, then the first duplicate or collision, then the first path
/// escaping the output folder, each as `Internal` with the torrent
/// error's text.
pub fn vet_torrent_files(root: &str, paths: &Vec<String>) -> (r: Result<(), crate::error::Error>)
    ensures
        first_invalid(texts(paths@), paths@.len()) matches Some(i) ==> (r matches Err(
            crate::error::Error::Internal(m),
        ) && m@ == "invalid torrent path: "@ + paths@[i]@ + ": "@ + torrent_path_error_text(
            torrent_path_violation(paths@[i]@).unwrap(),
        )),
        first_invalid(texts(paths@), paths@.len()) is None && duplicate_issue(texts(paths@))
            is Some ==> (r matches Err(crate::error::Error::Internal(m)) && m@
            == "duplicate torrent path: "@ + duplicate_issue(texts(paths@)).unwrap()),
        first_invalid(texts(paths@), paths@.len()) is None && duplicate_issue(texts(paths@))
            is None && first_escaping(root@, texts(paths@), paths@.len()) is Some ==> (r matches Err(
            crate::error::Error::Internal(m),
        ) && m@ == "path escapes output root: "@ + paths@[first_escaping(
            root@,
            texts(paths@),
            paths@.len(),
        ).unwrap()]@),
        first_invalid(texts(paths@), paths@.len()) is None && duplicate_issue(texts(paths@))
            is None && first_escaping(root@, texts(paths@), paths@.len()) is None ==> r is Ok,
        ascii_case_duplicate(texts(paths@)) ==> r is Err,
{
    proof {
        reveal_strlit("invalid torrent path: ");
        reveal_strlit("invalid torrent path");
        reveal_strlit("duplicate torrent path: ");
        reveal_strlit("duplicate torrent path");
        reveal_strlit("path escapes output root: ");
        reveal_strlit("path escapes");
    }
    match validate_torrent_paths(paths) {
        Ok(()) => {},
        Err(e) => {
            let text = e.message();
            proof {
                let t = torrent_error_text(e);
                assert(t.take(20) =~= "invalid torrent path"@);
                lemma_infix_at_start(t, "invalid torrent path"@);
                assert(speaks_of_path(text@));
            }
            return Err(map_error(text.as_str()));
        },
    }
    match validate_no_duplicates(paths) {
        Ok(()) => {},
        Err(e) => {
            let text = e.message();
            proof {
                let t = torrent_error_text(e);
                assert(t.take(22) =~= "duplicate torrent path"@);
                lemma_infix_at_start(t, "duplicate torrent path"@);
                assert(speaks_of_path(text@));
            }
            return Err(map_error(text.as_str()));
        },
    }
    match validate_root_confinement(root, paths) {
        Ok(()) => Ok(()),
        Err(e) => {
            let text = e.message();
            proof {
                let t = torrent_error_text(e);
                assert(t.take(12) =~= "path escapes"@);
                lemma_infix_at_start(t, "path escapes"@);
                assert(speaks_of_path(text@));
            }
            Err(map_error(text.as_str()))
        },
    }
}

/// A file list the duplicate check accepts holds no two paths that are
/// equal ignoring case, no path named like the ownership marker, and no path
/// one of whose proper prefixes is, ignoring case, a file of the list.
pub proof fn law_accepted_list_has_no_case_duplicates(ps: Seq<Seq<char>>)
    requires
        duplicate_issue(ps) is None,
    ensures
        forall|i: int, j: int|
            0 <= i < j < ps.len() ==> unicode_lowercase(#[trigger] ps[i]) != unicode_lowercase(
                #[trigger] ps[j],
            ),
        forall|i: int| 0 <= i < ps.len() ==> !names_marker(components(#[trigger] ps[i])),
        forall|i: int| 0 <= i < ps.len() ==> !#[trigger] collides(ps, i),
{
    lemma_seen_none_prefix(ps, ps.len());
    lemma_no_collision_prefix(ps, ps.len());
}

/// No collision among the first `n` paths means none of them collides.
proof fn lemma_no_collision_prefix(ps: Seq<Seq<char>>, n: nat)
    requires
        first_collision(ps, n) is None,
    ensures
        forall|i: int| 0 <= i < n ==> !#[trigger] collides(ps, i),
    decreases n,
{
    if n > 0 {
        lemma_no_collision_prefix(ps, (n - 1) as nat);
    }
}

/// No first-pass problem among the first `n` paths means no case-duplicate
/// and no marker name among them.
proof fn lemma_seen_none_prefix(ps: Seq<Seq<char>>, n: nat)
    requires
        n <= ps.len(),
        first_seen_issue(ps, n) is None,
    ensures
        forall|i: int, j: int|
            0 <= i < j < n ==> unicode_lowercase(#[trigger] ps[i]) != unicode_lowercase(
                #[trigger] ps[j],
            ),
        forall|i: int| 0 <= i < n ==> !names_marker(components(#[trigger] ps[i])),
    decreases n,
{
    if n > 0 {
        let m = (n - 1) as nat;
        assert(first_seen_issue(ps, m) is None);
        lemma_seen_none_prefix(ps, m);
        assert(!names_marker(components(ps[m as int])));
        assert forall|i: int, j: int| 0 <= i < j < n implies unicode_lowercase(#[trigger] ps[i])
            != unicode_lowercase(#[trigger] ps[j]) by {
            if j == m {
                assert(!(0 <= i < m && unicode_lowercase(ps[i]) == unicode_lowercase(ps[m as int])));
            }
        }
    }
}

} // verus!
