//! Path components, as the Unix `Path::components` iterator yields them.
//!
//! A path is handled through its text. `/` separates components, repeated
//! separators and `.` components are dropped except for a leading `.`, and a
//! leading `/` is the root.

use vstd::prelude::*;

use crate::text::{
    chars_of, lemma_split_concat, lemma_split_nonempty, push_char, push_str, split_chars, split_on, string_of, views_of,
};

verus! {

/// One component of a path.
pub enum Component {
    /// The leading `/` of an absolute path.
    RootDir,
    /// A leading `.`.
    CurDir,
    /// A `..` component.
    ParentDir,
    /// An ordinary name.
    Normal(Seq<char>),
}

/// The components one `/`-separated piece contributes.
pub open spec fn piece_components(p: Seq<char>) -> Seq<Component> {
    if p.len() == 0 || p == seq!['.'] {
        seq![]
    } else if p == seq!['.', '.'] {
        seq![Component::ParentDir]
    } else {
        seq![Component::Normal(p)]
    }
}

/// The components contributed by a run of pieces.
pub open spec fn pieces_components(ps: Seq<Seq<char>>) -> Seq<Component>
    decreases ps.len(),
{
    if ps.len() == 0 {
        seq![]
    } else {
        pieces_components(ps.drop_last()) + piece_components(ps.last())
    }
}

/// `true` when the path text starts with the root separator.
pub open spec fn is_rooted(s: Seq<char>) -> bool {
    s.len() > 0 && s[0] == '/'
}

/// The components of a path text.
pub open spec fn components(s: Seq<char>) -> Seq<Component> {
    let ps = split_on(s, '/');
    if is_rooted(s) {
        seq![Component::RootDir] + pieces_components(ps)
    } else if ps[0] == seq!['.'] {
        seq![Component::CurDir] + pieces_components(ps.drop_first())
    } else {
        pieces_components(ps)
    }
}

/// An executable path component.
pub enum Comp {
    /// The leading `/` of an absolute path.
    RootDir,
    /// A leading `.`.
    CurDir,
    /// A `..` component.
    ParentDir,
    /// An ordinary name.
    Normal(Vec<char>),
}

impl View for Comp {
    type V = Component;

    open spec fn view(&self) -> Component {
        match self {
            Comp::RootDir => Component::RootDir,
            Comp::CurDir => Component::CurDir,
            Comp::ParentDir => Component::ParentDir,
            Comp::Normal(n) => Component::Normal(n@),
        }
    }
}

/// The views of a sequence of executable components.
pub open spec fn comps_view(v: Seq<Comp>) -> Seq<Component> {
    Seq::new(v.len(), |i: int| v[i]@)
}

/// `true` when `p` is exactly the text `t`.
fn is_piece(p: &[char], t: &[char]) -> (r: bool)
    ensures
        r == (p@ == t@),
{
    crate::text::seq_equal(p, t)
}

/// Splits a path text into its components.
pub fn components_of(s: &[char]) -> (r: Vec<Comp>)
    ensures
        comps_view(r@) == components(s@),
{
    let pieces = split_chars(s, '/');
    let ghost ps = views_of(pieces@);
    proof {
        lemma_split_nonempty(s@, '/');
    }
    let dot = vec!['.'];
    let dotdot = vec!['.', '.'];
    assert(dot@ == seq!['.']);
    assert(dotdot@ == seq!['.', '.']);
    let mut out: Vec<Comp> = Vec::new();
    let rooted = s.len() > 0 && s[0] == '/';
    let start: usize;
    if rooted {
        out.push(Comp::RootDir);
        start = 0;
    } else if is_piece(&pieces[0], &dot) {
        assert(pieces@[0]@ == ps[0]);
        out.push(Comp::CurDir);
        start = 1;
    } else {
        assert(pieces@[0]@ == ps[0]);
        start = 0;
    }
    let ghost head = comps_view(out@);
    assert(ps.subrange(start as int, start as int) =~= Seq::<Seq<char>>::empty());
    assert(comps_view(out@) =~= head + pieces_components(ps.subrange(start as int, start as int)));
    let n = pieces.len();
    for i in start..n
        invariant
            n == pieces@.len(),
            ps == views_of(pieces@),
            start <= n,
            dot@ == seq!['.'],
            dotdot@ == seq!['.', '.'],
            comps_view(out@) == head + pieces_components(ps.subrange(start as int, i as int)),
    {
        let p = &pieces[i];
        assert(p@ == ps[i as int]);
        let ghost before = comps_view(out@);
        assert(ps.subrange(start as int, i + 1).drop_last() =~= ps.subrange(
            start as int,
            i as int,
        ));
        assert(ps.subrange(start as int, i + 1).last() == ps[i as int]);
        if p.len() == 0 || is_piece(p, &dot) {
            assert(piece_components(p@) =~= Seq::<Component>::empty());
            assert(comps_view(out@) =~= before + piece_components(p@));
        } else if is_piece(p, &dotdot) {
            out.push(Comp::ParentDir);
            assert(comps_view(out@) =~= before + piece_components(p@));
        } else {
            let name = p.clone();
            out.push(Comp::Normal(name));
            assert(comps_view(out@) =~= before + piece_components(p@));
        }
    }
    assert(ps.subrange(0, n as int) =~= ps);
    assert(ps.subrange(1, n as int) =~= ps.drop_first());
    out
}

/// The text of one component, as `Component::as_os_str` gives it.
pub open spec fn component_text(c: Component) -> Seq<char> {
    match c {
        Component::RootDir => seq!['/'],
        Component::CurDir => seq!['.'],
        Component::ParentDir => seq!['.', '.'],
        Component::Normal(n) => n,
    }
}

/// `PathBuf::push` of one component's text onto a path text.
pub open spec fn pushed(t: Seq<char>, c: Component) -> Seq<char> {
    if c is RootDir {
        seq!['/']
    } else if t.len() == 0 || t.last() == '/' {
        t + component_text(c)
    } else {
        t + seq!['/'] + component_text(c)
    }
}

/// The text of the path made of the first `k` components.
pub open spec fn prefix_text(cs: Seq<Component>, k: nat) -> Seq<char>
    decreases k,
{
    if k == 0 {
        Seq::<char>::empty()
    } else {
        pushed(prefix_text(cs, (k - 1) as nat), cs[k - 1])
    }
}

/// The text of one executable component.
pub fn component_text_of(c: &Comp) -> (r: String)
    ensures
        r@ == component_text(c@),
{
    let mut s = String::new();
    match c {
        Comp::RootDir => push_char(&mut s, '/'),
        Comp::CurDir => push_char(&mut s, '.'),
        Comp::ParentDir => {
            push_char(&mut s, '.');
            push_char(&mut s, '.');
        },
        Comp::Normal(n) => {
            return string_of(n);
        },
    }
    s
}

/// `PathBuf::push` of one component onto a path text.
pub fn push_component(t: &String, c: &Comp) -> (r: String)
    ensures
        r@ == pushed(t@, c@),
{
    if let Comp::RootDir = c {
        let mut r = String::new();
        push_char(&mut r, '/');
        return r;
    }
    let text = component_text_of(c);
    let tv = chars_of(t.as_str());
    let mut r = string_of(&tv);
    if tv.len() > 0 && tv[tv.len() - 1] != '/' {
        push_char(&mut r, '/');
    }
    push_str(&mut r, text.as_str());
    r
}

/// The text of the first `k` components depends on those components alone.
pub proof fn lemma_prefix_text_agrees(a: Seq<Component>, b: Seq<Component>, k: nat)
    requires
        k <= a.len(),
        k <= b.len(),
        a.take(k as int) == b.take(k as int),
    ensures
        prefix_text(a, k) == prefix_text(b, k),
    decreases k,
{
    if k > 0 {
        let j = (k - 1) as nat;
        assert(a.take(j as int) =~= a.take(k as int).take(j as int));
        assert(b.take(j as int) =~= b.take(k as int).take(j as int));
        assert(a[j as int] == a.take(k as int)[j as int]);
        assert(b[j as int] == b.take(k as int)[j as int]);
        lemma_prefix_text_agrees(a, b, j);
    }
}

/// The components of a run of pieces split into two runs.
pub proof fn lemma_pieces_concat(x: Seq<Seq<char>>, y: Seq<Seq<char>>)
    ensures
        pieces_components(x + y) == pieces_components(x) + pieces_components(y),
    decreases y.len(),
{
    if y.len() == 0 {
        assert(x + y =~= x);
        assert(pieces_components(x) + pieces_components(y) =~= pieces_components(x));
    } else {
        lemma_pieces_concat(x, y.drop_last());
        assert((x + y).drop_last() =~= x + y.drop_last());
        assert((x + y).last() == y.last());
        assert(pieces_components(x + y) =~= pieces_components(x) + pieces_components(y));
    }
}

/// Components of `a/b` for a nonempty `a`: those of `a`, then those of the
/// pieces of `b`.
pub proof fn lemma_components_join(a: Seq<char>, b: Seq<char>)
    requires
        a.len() > 0,
    ensures
        components(a + seq!['/'] + b) == components(a) + pieces_components(split_on(b, '/')),
{
    let j = a + seq!['/'] + b;
    lemma_split_concat(a, b, '/');
    lemma_split_nonempty(a, '/');
    let sa = split_on(a, '/');
    let sb = split_on(b, '/');
    assert(split_on(j, '/') == sa + sb);
    assert(j[0] == a[0]);
    lemma_pieces_concat(sa, sb);
    if is_rooted(a) {
        assert(components(j) =~= components(a) + pieces_components(sb));
    } else if sa[0] == seq!['.'] {
        assert((sa + sb)[0] == sa[0]);
        assert((sa + sb).drop_first() =~= sa.drop_first() + sb);
        lemma_pieces_concat(sa.drop_first(), sb);
        assert(components(j) =~= components(a) + pieces_components(sb));
    } else {
        assert((sa + sb)[0] == sa[0]);
        assert(components(j) =~= components(a) + pieces_components(sb));
    }
}

/// A component that may stand after the first position: `..` or a name
/// that is not empty, holds no separator and is neither `.` nor `..`.
pub open spec fn is_inner(c: Component) -> bool {
    match c {
        Component::ParentDir => true,
        Component::Normal(n) => n.len() > 0 && !n.contains('/') && n != seq!['.'] && n != seq![
            '.',
            '.',
        ],
        _ => false,
    }
}

/// A component list as `Path::components` yields it: a root or a `.` only
/// in front, every other component inner.
pub open spec fn wf_comps(cs: Seq<Component>) -> bool {
    forall|i: int|
        0 <= i < cs.len() ==> (is_inner(#[trigger] cs[i]) || (i == 0 && (cs[i] is RootDir
            || cs[i] is CurDir)))
}

/// The components of pieces without separators are inner.
pub proof fn lemma_pieces_inner(ps: Seq<Seq<char>>)
    requires
        forall|i: int| 0 <= i < ps.len() ==> !(#[trigger] ps[i]).contains('/'),
    ensures
        forall|j: int|
            0 <= j < pieces_components(ps).len() ==> is_inner(#[trigger] pieces_components(ps)[j]),
    decreases ps.len(),
{
    if ps.len() > 0 {
        lemma_pieces_inner(ps.drop_last());
        let a = pieces_components(ps.drop_last());
        let b = piece_components(ps.last());
        assert(!ps[ps.len() - 1].contains('/'));
        assert forall|j: int| 0 <= j < (a + b).len() implies is_inner(#[trigger] (a + b)[j]) by {
            if j < a.len() {
                assert((a + b)[j] == a[j]);
            } else {
                assert((a + b)[j] == b[j - a.len()]);
            }
        }
    }
}

/// What `Path::components` yields is well formed.
pub proof fn lemma_components_wf(s: Seq<char>)
    ensures
        wf_comps(components(s)),
{
    let ps = split_on(s, '/');
    crate::text::lemma_split_pieces_no_sep(s, '/');
    lemma_split_nonempty(s, '/');
    lemma_pieces_inner(ps);
    if is_rooted(s) || ps[0] == seq!['.'] {
        let head = if is_rooted(s) {
            seq![Component::RootDir]
        } else {
            seq![Component::CurDir]
        };
        let rest = if is_rooted(s) {
            ps
        } else {
            ps.drop_first()
        };
        if !is_rooted(s) {
            lemma_pieces_inner(ps.drop_first());
        }
        let r = pieces_components(rest);
        assert(components(s) == head + r);
        assert forall|i: int| 0 <= i < (head + r).len() implies (is_inner(#[trigger] (head + r)[i]) || (
        i == 0 && ((head + r)[i] is RootDir || (head + r)[i] is CurDir))) by {
            if i > 0 {
                assert((head + r)[i] == r[i - 1]);
            }
        }
    }
}

/// The components of a single piece are that piece's components.
pub proof fn lemma_pieces_single(p: Seq<char>)
    ensures
        pieces_components(seq![p]) == piece_components(p),
{
    let ps = seq![p];
    assert(ps.drop_last() =~= Seq::<Seq<char>>::empty());
    assert(pieces_components(ps.drop_last()) == Seq::<Component>::empty());
    assert(ps.last() == p);
    assert(pieces_components(ps) == pieces_components(ps.drop_last()) + piece_components(ps.last()));
    assert(Seq::<Component>::empty() + piece_components(p) =~= piece_components(p));
}

/// The components of one nonempty text without separators.
pub proof fn lemma_components_single(p: Seq<char>)
    requires
        p.len() > 0,
        !p.contains('/'),
    ensures
        components(p) == (if p == seq!['.'] {
            seq![Component::CurDir]
        } else {
            piece_components(p)
        }),
{
    crate::text::lemma_split_no_sep(p, '/');
    assert(p[0] != '/');
    let ps = seq![p];
    assert(ps.drop_first() =~= Seq::<Seq<char>>::empty());
    lemma_pieces_single(p);
}

/// The components of `/` followed by one nonempty text without separators.
pub proof fn lemma_components_rooted_single(p: Seq<char>)
    requires
        p.len() > 0,
        !p.contains('/'),
    ensures
        components(seq!['/'] + p) == seq![Component::RootDir] + piece_components(p),
{
    let e = Seq::<char>::empty();
    crate::text::lemma_split_concat(e, p, '/');
    crate::text::lemma_split_no_sep(p, '/');
    assert(e + seq!['/'] + p =~= seq!['/'] + p);
    assert(split_on(e, '/') =~= seq![e]);
    lemma_pieces_concat(seq![e], seq![p]);
    lemma_pieces_single(e);
    lemma_pieces_single(p);
    assert(piece_components(e) == Seq::<Component>::empty());
    assert(seq![e] + seq![p] =~= split_on(seq!['/'] + p, '/'));
}

/// The text of a component that is not the root ends in a character other
/// than the separator.
proof fn lemma_text_not_sep_ending(c: Component)
    requires
        is_inner(c) || c is CurDir,
    ensures
        component_text(c).len() > 0,
        !component_text(c).contains('/'),
{
    if let Component::Normal(n) = c {
    } else {
        assert(!component_text(c).contains('/')) by {
            if component_text(c).contains('/') {
                let j = choose|j: int| 0 <= j < component_text(c).len() && component_text(c)[j] == '/';
            }
        }
    }
}

/// The text of the first `k >= 1` components of a well-formed list is not
/// empty, and ends in the separator only when it is the root alone.
proof fn lemma_prefix_text_shape(cs: Seq<Component>, k: nat)
    requires
        wf_comps(cs),
        1 <= k <= cs.len(),
    ensures
        prefix_text(cs, k).len() > 0,
        prefix_text(cs, k).last() == '/' ==> k == 1 && cs[0] is RootDir && prefix_text(cs, k)
            == seq!['/'],
{
    let t = prefix_text(cs, (k - 1) as nat);
    let c = cs[k - 1];
    if !(c is RootDir) {
        assert(is_inner(c) || c is CurDir);
        lemma_text_not_sep_ending(c);
        let x = component_text(c);
        assert(x[x.len() - 1] != '/');
        if t.len() == 0 || t.last() == '/' {
            assert((t + x).last() == x.last());
        } else {
            assert((t + seq!['/'] + x).last() == x.last());
        }
    }
}

/// The text of the first `k` components of a well-formed list has exactly
/// those components.
pub proof fn lemma_prefix_components(cs: Seq<Component>, k: nat)
    requires
        wf_comps(cs),
        k <= cs.len(),
    ensures
        components(prefix_text(cs, k)) == cs.take(k as int),
    decreases k,
{
    if k == 0 {
        let e = Seq::<char>::empty();
        assert(split_on(e, '/') =~= seq![e]);
        lemma_pieces_single(e);
        assert(seq![e][0] != seq!['.']) by {
            assert(seq![e][0].len() == 0);
        }
        assert(components(e) =~= Seq::<Component>::empty());
        assert(cs.take(0) =~= Seq::<Component>::empty());
    } else {
        let j = (k - 1) as nat;
        lemma_prefix_components(cs, j);
        let t = prefix_text(cs, j);
        let c = cs[j as int];
        assert(cs.take(k as int) =~= cs.take(j as int).push(c));
        if c is RootDir {
            assert(j == 0);
            let e = Seq::<char>::empty();
            assert(t =~= e);
            crate::text::lemma_split_concat(e, e, '/');
            assert(e + seq!['/'] + e =~= seq!['/']);
            assert(split_on(e, '/') =~= seq![e]);
            lemma_pieces_concat(seq![e], seq![e]);
            lemma_pieces_single(e);
            assert(piece_components(e) == Seq::<Component>::empty());
            assert(prefix_text(cs, k) == seq!['/']);
            assert(components(seq!['/']) =~= seq![Component::RootDir]);
            assert(cs.take(1) =~= seq![Component::RootDir]);
        } else {
            assert(is_inner(c) || (j == 0 && c is CurDir));
            lemma_text_not_sep_ending(c);
            let x = component_text(c);
            lemma_components_single(x);
            if t.len() == 0 {
                if j > 0 {
                    assert(cs.take(j as int).len() > 0);
                    assert(components(t) =~= Seq::<Component>::empty()) by {
                        let e = Seq::<char>::empty();
                        assert(t =~= e);
                        assert(split_on(e, '/') =~= seq![e]);
                        lemma_pieces_single(e);
                        assert(piece_components(e) == Seq::<Component>::empty());
                        assert(seq![e][0].len() == 0);
                    }
                }
                assert(t + x =~= x);
                if c is CurDir {
                    assert(x == seq!['.']);
                } else if c is ParentDir {
                    assert(x =~= seq!['.', '.']);
                    assert(x != seq!['.']) by {
                        assert(x.len() == 2);
                    }
                } else {
                    assert(x == c->Normal_0);
                }
            } else {
                assert(j >= 1);
                lemma_prefix_text_shape(cs, j);
                assert(is_inner(c));
                assert(x != seq!['.']) by {
                    if c is ParentDir {
                        assert(x.len() == 2);
                    }
                }
                if t.last() == '/' {
                    assert(t == seq!['/']);
                    lemma_components_rooted_single(x);
                    assert(cs.take(1) =~= seq![Component::RootDir]);
                } else {
                    lemma_components_join(t, x);
                    crate::text::lemma_split_no_sep(x, '/');
                    lemma_pieces_single(x);
                }
                if c is ParentDir {
                    assert(piece_components(x) == seq![Component::ParentDir]);
                } else {
                    assert(piece_components(x) == seq![c]);
                }
            }
        }
    }
}

} // verus!
