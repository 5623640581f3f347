//! Torrent-specific path validation: every file path inside a torrent must
//! be safe to materialize under a designated output root.

use vstd::prelude::*;

use crate::components::{
    components, components_of, comps_view, is_rooted, lemma_components_join, lemma_pieces_concat,
    piece_components, pieces_components, Comp, Component,
};
use crate::path::{filename_check, filename_violation, joined};
use crate::text::{chars_of, contains_char, lemma_split_concat, lemma_split_nonempty, seq_equal, split_on};

verus! {

/// Reasons a torrent path can be rejected.
#[derive(Debug, Clone, Copy, PartialEq, Eq, Structural)]
pub enum TorrentPathError {
    /// Path contains `..` traversal (or names nothing).
    ParentTraversal,
    /// Path is absolute.
    Absolute,
    /// Path contains NUL bytes.
    NulByte,
    /// Path contains control characters.
    ControlCharacter,
    /// A component is a reserved device name or otherwise not a file name.
    ReservedName,
    /// A component contains a path separator embedded in a name.
    EmbeddedSeparator,
    /// Path escapes the output root after normalization.
    EscapesRoot,
    /// Duplicate or case-insensitive collision.
    DuplicateOrCollision,
}

/// The human-readable text of a path rejection.
pub open spec fn torrent_path_error_text(e: TorrentPathError) -> Seq<char> {
    match e {
        TorrentPathError::ParentTraversal => "parent traversal not allowed"@,
        TorrentPathError::Absolute => "absolute path not allowed"@,
        TorrentPathError::NulByte => "NUL byte in path"@,
        TorrentPathError::ControlCharacter => "control character in path"@,
        TorrentPathError::ReservedName => "reserved Windows name"@,
        TorrentPathError::EmbeddedSeparator => "embedded path separator"@,
        TorrentPathError::EscapesRoot => "path escapes output root"@,
        TorrentPathError::DuplicateOrCollision => "duplicate or colliding path"@,
    }
}

impl TorrentPathError {
    /// The human-readable text of the rejection.
    pub fn message(self) -> (r: &'static str)
        ensures
            r@ == torrent_path_error_text(self),
    {
        match self {
            TorrentPathError::ParentTraversal => {
                proof {
                    reveal_strlit("parent traversal not allowed");
                }
                "parent traversal not allowed"
            },
            TorrentPathError::Absolute => {
                proof {
                    reveal_strlit("absolute path not allowed");
                }
                "absolute path not allowed"
            },
            TorrentPathError::NulByte => {
                proof {
                    reveal_strlit("NUL byte in path");
                }
                "NUL byte in path"
            },
            TorrentPathError::ControlCharacter => {
                proof {
                    reveal_strlit("control character in path");
                }
                "control character in path"
            },
            TorrentPathError::ReservedName => {
                proof {
                    reveal_strlit("reserved Windows name");
                }
                "reserved Windows name"
            },
            TorrentPathError::EmbeddedSeparator => {
                proof {
                    reveal_strlit("embedded path separator");
                }
                "embedded path separator"
            },
            TorrentPathError::EscapesRoot => {
                proof {
                    reveal_strlit("path escapes output root");
                }
                "path escapes output root"
            },
            TorrentPathError::DuplicateOrCollision => {
                proof {
                    reveal_strlit("duplicate or colliding path");
                }
                "duplicate or colliding path"
            },
        }
    }
}

/// An ASCII letter.
pub open spec fn is_ascii_alpha(c: char) -> bool {
    ('a' <= c && c <= 'z') || ('A' <= c && c <= 'Z')
}

/// A path text that starts with a separator or a drive letter and `:`.
pub open spec fn looks_absolute(s: Seq<char>) -> bool {
    (s.len() > 0 && (s[0] == '\\' || s[0] == '/')) || (s.len() >= 2 && is_ascii_alpha(s[0])
        && s[1] == ':')
}

/// Why a single component is refused, if it is.
pub open spec fn component_fault(c: Component) -> Option<TorrentPathError> {
    match c {
        Component::RootDir => Some(TorrentPathError::Absolute),
        Component::ParentDir => Some(TorrentPathError::ParentTraversal),
        Component::CurDir => None,
        Component::Normal(n) => if n.contains('/') || n.contains('\\') {
            Some(TorrentPathError::EmbeddedSeparator)
        } else if filename_violation(n) is Some {
            Some(TorrentPathError::ReservedName)
        } else {
            None
        },
    }
}

/// The fault of the first refused component, walking from the front.
pub open spec fn first_fault(cs: Seq<Component>) -> Option<TorrentPathError>
    decreases cs.len(),
{
    if cs.len() == 0 {
        None
    } else if component_fault(cs[0]) is Some {
        component_fault(cs[0])
    } else {
        first_fault(cs.drop_first())
    }
}

/// `true` when some component is an ordinary name.
pub open spec fn names_something(cs: Seq<Component>) -> bool {
    exists|i: int| 0 <= i < cs.len() && #[trigger] cs[i] is Normal
}

/// Why a torrent file path is refused, in the order the checks are made:
/// empty, NUL byte, absolute-looking text, a refused component, and a path
/// naming nothing. `None` for an accepted path.
pub open spec fn torrent_path_violation(s: Seq<char>) -> Option<TorrentPathError> {
    if s.len() == 0 {
        Some(TorrentPathError::ParentTraversal)
    } else if s.contains('\0') {
        Some(TorrentPathError::NulByte)
    } else if looks_absolute(s) {
        Some(TorrentPathError::Absolute)
    } else if first_fault(components(s)) is Some {
        first_fault(components(s))
    } else if !names_something(components(s)) {
        Some(TorrentPathError::ParentTraversal)
    } else {
        None
    }
}

/// Why one executable component is refused, if it is.
fn component_check(c: &Comp) -> (r: Option<TorrentPathError>)
    ensures
        r == component_fault(c@),
{
    match c {
        Comp::RootDir => Some(TorrentPathError::Absolute),
        Comp::ParentDir => Some(TorrentPathError::ParentTraversal),
        Comp::CurDir => None,
        Comp::Normal(n) => {
            if contains_char(n, '/') || contains_char(n, '\\') {
                Some(TorrentPathError::EmbeddedSeparator)
            } else if filename_check(n).is_some() {
                Some(TorrentPathError::ReservedName)
            } else {
                None
            }
        },
    }
}

/// Validates a single file path from torrent metadata.
///
/// The path must be relative, must not contain `..` or absolute components,
/// must not contain NUL, must not use reserved names or anything else a file
/// name may not hold, and must not contain embedded separators.
pub fn validate_torrent_path(path: &str) -> (r: Result<(), TorrentPathError>)
    ensures
        r is Ok <==> torrent_path_violation(path@) is None,
        r matches Err(e) ==> torrent_path_violation(path@) == Some(e),
{
    let v = chars_of(path);
    if v.len() == 0 {
        return Err(TorrentPathError::ParentTraversal);
    }
    if contains_char(&v, '\0') {
        return Err(TorrentPathError::NulByte);
    }
    if v[0] == '\\' || v[0] == '/' || (v.len() >= 2 && (('a' <= v[0] && v[0] <= 'z') || (
    'A' <= v[0] && v[0] <= 'Z')) && v[1] == ':') {
        return Err(TorrentPathError::Absolute);
    }
    let cs = components_of(&v);
    let ghost all = comps_view(cs@);
    let n = cs.len();
    let mut saw_normal = false;
    assert(all.skip(0) =~= all);
    for i in 0..n
        invariant
            n == cs@.len(),
            all == comps_view(cs@),
            all == components(v@),
            v@ == path@,
            v@.len() > 0,
            !v@.contains('\0'),
            !looks_absolute(v@),
            first_fault(all) == first_fault(all.skip(i as int)),
            saw_normal == exists|j: int| 0 <= j < i && #[trigger] all[j] is Normal,
    {
        assert(all.skip(i as int)[0] == all[i as int]);
        assert(all.skip(i as int).drop_first() =~= all.skip(i + 1));
        match component_check(&cs[i]) {
            Some(e) => {
                return Err(e);
            },
            None => {},
        }
        if let Comp::Normal(_) = &cs[i] {
            saw_normal = true;
        }
    }
    assert(all.skip(n as int) =~= Seq::<Component>::empty());
    if !saw_normal {
        return Err(TorrentPathError::ParentTraversal);
    }
    Ok(())
}

/// `true` when the components `a` are a prefix of the components `b`
/// (`Path::starts_with`).
pub open spec fn comps_prefix(a: Seq<Component>, b: Seq<Component>) -> bool {
    a.len() <= b.len() && b.take(a.len() as int) == a
}

/// One component applied to a normalized component list: the root starts
/// over, `.` is dropped, `..` removes the name before it (and stays at the
/// root; it is kept where there is no name to remove), a name is appended.
pub open spec fn normal_step(acc: Seq<Component>, c: Component) -> Seq<Component> {
    match c {
        Component::RootDir => seq![Component::RootDir],
        Component::CurDir => acc,
        Component::ParentDir => if acc.len() > 0 && acc.last() is Normal {
            acc.drop_last()
        } else if acc == seq![Component::RootDir] {
            acc
        } else {
            acc.push(Component::ParentDir)
        },
        Component::Normal(_) => acc.push(c),
    }
}

/// The components with `.` dropped and each `..` resolved against the name
/// before it: the lexical normal form of a path.
pub open spec fn normalized(cs: Seq<Component>) -> Seq<Component>
    decreases cs.len(),
{
    if cs.len() == 0 {
        Seq::<Component>::empty()
    } else {
        normal_step(normalized(cs.drop_last()), cs.last())
    }
}

/// `true` when joining `path` onto `root` gives, after normalization, a
/// path that no longer starts with the normalized `root`.
pub open spec fn escapes(root: Seq<char>, path: Seq<char>) -> bool {
    !comps_prefix(normalized(components(root)), normalized(components(joined(root, path))))
}

/// Equality of two executable components.
pub(crate) fn comp_eq(a: &Comp, b: &Comp) -> (r: bool)
    ensures
        r == (a@ == b@),
{
    match (a, b) {
        (Comp::RootDir, Comp::RootDir) => true,
        (Comp::CurDir, Comp::CurDir) => true,
        (Comp::ParentDir, Comp::ParentDir) => true,
        (Comp::Normal(x), Comp::Normal(y)) => seq_equal(x, y),
        _ => false,
    }
}

/// A copy of one executable component.
fn copy_comp(c: &Comp) -> (r: Comp)
    ensures
        r@ == c@,
{
    match c {
        Comp::RootDir => Comp::RootDir,
        Comp::CurDir => Comp::CurDir,
        Comp::ParentDir => Comp::ParentDir,
        Comp::Normal(n) => {
            let m = crate::text::copy_range(n.as_slice(), 0, n.len());
            assert(m@ =~= n@);
            Comp::Normal(m)
        },
    }
}

/// The lexical normal form of a component list.
fn normalize_comps(cs: &Vec<Comp>) -> (r: Vec<Comp>)
    ensures
        comps_view(r@) == normalized(comps_view(cs@)),
{
    let ghost cv = comps_view(cs@);
    let mut out: Vec<Comp> = Vec::new();
    let mut i: usize = 0;
    assert(cv.take(0) =~= Seq::<Component>::empty());
    assert(comps_view(out@) =~= Seq::<Component>::empty());
    while i < cs.len()
        invariant
            i <= cs@.len(),
            cv == comps_view(cs@),
            comps_view(out@) == normalized(cv.take(i as int)),
        decreases cs@.len() - i,
    {
        let ghost acc = comps_view(out@);
        assert(cv.take(i as int + 1).drop_last() =~= cv.take(i as int));
        assert(cv.take(i as int + 1).last() == cs@[i as int]@);
        match &cs[i] {
            Comp::RootDir => {
                out = Vec::new();
                out.push(Comp::RootDir);
                assert(comps_view(out@) =~= seq![Component::RootDir]);
            },
            Comp::CurDir => {},
            Comp::ParentDir => {
                let n = out.len();
                let last_normal = n > 0 && match &out[n - 1] {
                    Comp::Normal(_) => true,
                    _ => false,
                };
                let only_root = n == 1 && match &out[0] {
                    Comp::RootDir => true,
                    _ => false,
                };
                if last_normal {
                    out.pop();
                    assert(comps_view(out@) =~= acc.drop_last());
                } else if only_root {
                    assert(acc =~= seq![Component::RootDir]);
                } else {
                    out.push(Comp::ParentDir);
                    assert(comps_view(out@) =~= acc.push(Component::ParentDir));
                    assert(acc != seq![Component::RootDir]) by {
                        if acc == seq![Component::RootDir] {
                            assert(acc[0] == out@[0]@);
                        }
                    }
                }
            },
            Comp::Normal(_) => {
                let c = copy_comp(&cs[i]);
                out.push(c);
                assert(comps_view(out@) =~= acc.push(cs@[i as int]@));
            },
        }
        i += 1;
    }
    assert(cv.take(cs@.len() as int) =~= cv);
    out
}

/// Checks whether a path escapes the given root once joined onto it, after
/// normalization: the joined path, with `.` dropped and each `..` resolved,
/// must start with the normalized root.
pub fn escapes_root(root: &str, path: &str) -> (r: bool)
    ensures
        r == escapes(root@, path@),
{
    let joined_text = crate::path::join_path(root, path);
    let rv = chars_of(root);
    let jv = chars_of(joined_text.as_str());
    let a0 = components_of(&rv);
    let b0 = components_of(&jv);
    let a = normalize_comps(&a0);
    let b = normalize_comps(&b0);
    let ghost av = comps_view(a@);
    let ghost bv = comps_view(b@);
    if a.len() > b.len() {
        return true;
    }
    let n = a.len();
    for i in 0..n
        invariant
            n == a@.len(),
            n <= b@.len(),
            av == comps_view(a@),
            bv == comps_view(b@),
            av == normalized(components(root@)),
            bv == normalized(components(joined(root@, path@))),
            forall|j: int| 0 <= j < i ==> av[j] == bv[j],
    {
        if !comp_eq(&a[i], &b[i]) {
            assert(bv.take(n as int)[i as int] != av[i as int]);
            return true;
        }
    }
    assert(bv.take(n as int) =~= av);
    false
}

/// A lone empty piece contributes no component.
proof fn lemma_pieces_of_empty_piece()
    ensures
        pieces_components(seq![Seq::<char>::empty()]) == Seq::<Component>::empty(),
{
    let s = seq![Seq::<char>::empty()];
    assert(s.drop_last() =~= Seq::<Seq<char>>::empty());
    assert(s.last() =~= Seq::<char>::empty());
    assert(piece_components(Seq::<char>::empty()) =~= Seq::<Component>::empty());
    assert(pieces_components(s) =~= pieces_components(s.drop_last()) + piece_components(s.last()));
}

/// Normalizing a list followed by names keeps the names at the end.
proof fn lemma_normalized_append_names(a: Seq<Component>, b: Seq<Component>)
    requires
        forall|i: int| 0 <= i < b.len() ==> #[trigger] b[i] is Normal,
    ensures
        normalized(a + b) == normalized(a) + b,
    decreases b.len(),
{
    if b.len() == 0 {
        assert(a + b =~= a);
        assert(normalized(a) + b =~= normalized(a));
    } else {
        let b2 = b.drop_last();
        assert forall|i: int| 0 <= i < b2.len() implies #[trigger] b2[i] is Normal by {
            assert(b2[i] == b[i]);
        }
        lemma_normalized_append_names(a, b2);
        assert((a + b).drop_last() =~= a + b2);
        assert((a + b).last() == b.last());
        assert(b[b.len() - 1] is Normal);
        assert(normalized(a) + b =~= (normalized(a) + b2).push(b.last()));
    }
}

/// No component of a list the walk accepts is refused.
proof fn lemma_no_fault(cs: Seq<Component>, i: int)
    requires
        first_fault(cs) is None,
        0 <= i < cs.len(),
    ensures
        component_fault(cs[i]) is None,
    decreases cs.len(),
{
    if i > 0 {
        lemma_no_fault(cs.drop_first(), i - 1);
        assert(cs.drop_first()[i - 1] == cs[i]);
    }
}

/// The components the pieces of an accepted path contribute are names.
proof fn lemma_valid_pieces_are_names(path: Seq<char>)
    requires
        torrent_path_violation(path) is None,
    ensures
        forall|i: int|
            0 <= i < pieces_components(split_on(path, '/')).len() ==> #[trigger] pieces_components(
                split_on(path, '/'),
            )[i] is Normal,
{
    let ps = split_on(path, '/');
    let pb = pieces_components(ps);
    let cs = components(path);
    lemma_split_nonempty(path, '/');
    crate::text::lemma_split_pieces_no_sep(path, '/');
    crate::components::lemma_pieces_inner(ps);
    assert(!is_rooted(path));
    // `pb` is `cs` without a leading `.`.
    let lead: int = if ps[0] == seq!['.'] {
        1
    } else {
        0
    };
    if ps[0] == seq!['.'] {
        assert(ps =~= seq![ps[0]] + ps.drop_first());
        lemma_pieces_concat(seq![ps[0]], ps.drop_first());
        crate::components::lemma_pieces_single(ps[0]);
        assert(piece_components(ps[0]) =~= Seq::<Component>::empty());
        assert(pb =~= pieces_components(ps.drop_first()));
        assert(cs == seq![Component::CurDir] + pb);
    } else {
        assert(cs == pb);
    }
    assert forall|i: int| 0 <= i < pb.len() implies #[trigger] pb[i] is Normal by {
        assert(cs[i + lead] == pb[i]);
        lemma_no_fault(cs, i + lead);
        assert(crate::components::is_inner(pb[i]));
    }
}

/// A file path that [`validate_torrent_path`] accepts never escapes any
/// output root it is joined onto, even after normalization.
pub proof fn law_valid_torrent_path_stays_under_root(root: Seq<char>, path: Seq<char>)
    requires
        torrent_path_violation(path) is None,
    ensures
        !escapes(root, path),
{
    assert(!crate::path::is_rooted_text(path));
    let pb = pieces_components(split_on(path, '/'));
    lemma_valid_pieces_are_names(path);
    let j = joined(root, path);
    if root.len() == 0 {
        assert(split_on(root, '/') =~= seq![Seq::<char>::empty()]);
        lemma_pieces_of_empty_piece();
        assert(seq![Seq::<char>::empty()][0] != seq!['.']) by {
            assert(seq![Seq::<char>::empty()][0].len() == 0);
        }
        assert(components(root) =~= Seq::<Component>::empty());
        assert(normalized(components(root)) =~= Seq::<Component>::empty());
        assert(normalized(components(j)).take(0) =~= Seq::<Component>::empty());
    } else {
        if root.last() != '/' {
            lemma_components_join(root, path);
            assert(j == root + seq!['/'] + path);
            assert(components(j) == components(root) + pb);
        } else {
            let r2 = root.drop_last();
            assert(root =~= r2 + seq!['/'] + Seq::<char>::empty());
            assert(j =~= r2 + seq!['/'] + path);
            assert(split_on(Seq::<char>::empty(), '/') =~= seq![Seq::<char>::empty()]);
            lemma_pieces_of_empty_piece();
            if r2.len() > 0 {
                lemma_components_join(r2, Seq::<char>::empty());
                lemma_components_join(r2, path);
                assert(components(root) =~= components(r2));
                assert(components(j) == components(root) + pb);
            } else {
                lemma_split_concat(r2, path, '/');
                lemma_split_concat(r2, Seq::<char>::empty(), '/');
                assert(split_on(r2, '/') =~= seq![Seq::<char>::empty()]);
                lemma_pieces_concat(seq![Seq::<char>::empty()], split_on(path, '/'));
                lemma_pieces_concat(seq![Seq::<char>::empty()], seq![Seq::<char>::empty()]);
                lemma_pieces_of_empty_piece();
                assert(is_rooted(root) && is_rooted(j));
                assert(components(root) =~= seq![Component::RootDir]);
                assert(components(j) =~= seq![Component::RootDir] + pb);
            }
        }
        let a = components(root);
        lemma_normalized_append_names(a, pb);
        let na = normalized(a);
        assert((na + pb).take(na.len() as int) =~= na);
    }
}

/// No component of the list is refused: walking from the front finds none.
proof fn lemma_no_fault_found(cs: Seq<Component>)
    requires
        forall|i: int| 0 <= i < cs.len() ==> component_fault(#[trigger] cs[i]) is None,
    ensures
        first_fault(cs) is None,
    decreases cs.len(),
{
    if cs.len() > 0 {
        assert forall|i: int| 0 <= i < cs.drop_first().len() implies component_fault(
            #[trigger] cs.drop_first()[i],
        ) is None by {
            assert(cs.drop_first()[i] == cs[i + 1]);
        }
        lemma_no_fault_found(cs.drop_first());
        assert(component_fault(cs[0]) is None);
    }
}

/// A relative path of ordinary names is accepted: a path that is not empty,
/// holds no NUL, does not look absolute, whose components are each `.` or
/// a name without separators that is a valid file name, and which names at
/// least one thing, passes the torrent path check.
pub proof fn law_ordinary_relative_paths_are_accepted(s: Seq<char>)
    requires
        s.len() > 0,
        !s.contains('\0'),
        !looks_absolute(s),
        forall|i: int|
            0 <= i < components(s).len() ==> (#[trigger] components(s)[i] is CurDir || (components(s)[i] matches Component::Normal(n)
                && !n.contains('/') && !n.contains('\\') && filename_violation(n) is None)),
        exists|i: int| 0 <= i < components(s).len() && #[trigger] components(s)[i] is Normal,
    ensures
        torrent_path_violation(s) is None,
{
    let cs = components(s);
    assert forall|i: int| 0 <= i < cs.len() implies component_fault(#[trigger] cs[i]) is None by {
        assert(cs[i] is CurDir || cs[i] is Normal);
    }
    lemma_no_fault_found(cs);
    let i = choose|i: int| 0 <= i < cs.len() && #[trigger] cs[i] is Normal;
    assert(names_something(cs));
}

} // verus!
