//! Which paths are checked for links before a torrent is written: the
//! output folder and every folder above it, then, for each file, the path
//! after each of its names under the folder and every folder above that.
//! A link found at any of them would let the torrent write outside its
//! folder.

use vstd::prelude::*;

use crate::components::{components, components_of, comps_view, prefix_text, push_component, pushed, Comp, Component};
use crate::text::{chars_of, string_of};
use crate::torrent::cleanup::prefix_string;
use crate::torrent::layout::texts;

verus! {

/// The folders above a path with components `cs`, walking up from the
/// nearest: the first `k` components, for `k` from `hi` down to `lo`.
pub open spec fn parents_down(cs: Seq<Component>, hi: int, lo: int) -> Seq<Seq<char>>
    decreases hi - lo + 1,
{
    if hi < lo {
        Seq::<Seq<char>>::empty()
    } else {
        seq![prefix_text(cs, hi as nat)] + parents_down(cs, hi - 1, lo)
    }
}

/// A path and every folder above it (`Path::parent` repeatedly, up to the
/// root or the empty path), nearest first.
pub open spec fn ancestors(t: Seq<char>) -> Seq<Seq<char>> {
    let cs = components(t);
    seq![t] + if cs.len() == 0 {
        Seq::<Seq<char>>::empty()
    } else {
        parents_down(
            cs,
            cs.len() - 1,
            if cs[0] is RootDir {
                1
            } else {
                0
            },
        )
    }
}

/// Walking the first `j` components `cs` of a file path from `root`: the
/// path reached (each ordinary name pushed in turn, other components
/// skipped), and the paths to check so far (after each name, the path
/// reached and every folder above it).
pub open spec fn walk(root: Seq<char>, cs: Seq<Component>, j: nat) -> (Seq<char>, Seq<Seq<char>>)
    decreases j,
{
    if j == 0 {
        (root, Seq::<Seq<char>>::empty())
    } else {
        let (cur, acc) = walk(root, cs, (j - 1) as nat);
        match cs[j - 1] {
            Component::Normal(n) => {
                let next = pushed(cur, Component::Normal(n));
                (next, acc + ancestors(next))
            },
            _ => (cur, acc),
        }
    }
}

/// The paths to check for the first `i` files.
pub open spec fn file_checks(root: Seq<char>, ps: Seq<Seq<char>>, i: nat) -> Seq<Seq<char>>
    decreases i,
{
    if i == 0 {
        Seq::<Seq<char>>::empty()
    } else {
        let cs = components(ps[i - 1]);
        file_checks(root, ps, (i - 1) as nat) + walk(root, cs, cs.len()).1
    }
}

/// Every path to check for links, in order: the folder and every folder
/// above it, then the paths of each file's walk.
pub open spec fn link_checks(root: Seq<char>, ps: Seq<Seq<char>>) -> Seq<Seq<char>> {
    ancestors(root) + file_checks(root, ps, ps.len())
}

/// Appends a path and every folder above it.
fn append_ancestors(out: &mut Vec<String>, t: &String)
    ensures
        texts(final(out)@) == texts(old(out)@) + ancestors(t@),
{
    let ghost start = texts(out@);
    let v = chars_of(t.as_str());
    let cs = components_of(&v);
    let ghost cv = comps_view(cs@);
    out.push(string_of(&v));
    assert(texts(out@) =~= start + seq![t@]);
    let n = cs.len();
    if n == 0 {
        assert(start + seq![t@] =~= start + ancestors(t@));
        return;
    }
    let lo: usize = match &cs[0] {
        Comp::RootDir => 1,
        _ => 0,
    };
    assert(lo == (if cv[0] is RootDir { 1int } else { 0int }));
    let mut hi: usize = n;
    while hi > lo
        invariant
            n == cs@.len(),
            n > 0,
            cv == comps_view(cs@),
            cv == components(t@),
            lo <= hi <= n,
            lo == (if cv[0] is RootDir { 1int } else { 0int }),
            texts(out@) + parents_down(cv, hi - 1, lo as int) == start + ancestors(t@),
        decreases hi,
    {
        let k = hi - 1;
        let ghost before = texts(out@);
        let p = prefix_string(&cs, k);
        out.push(p);
        assert(texts(out@) =~= before.push(prefix_text(cv, k as nat)));
        assert(before + parents_down(cv, k as int, lo as int) =~= texts(out@) + parents_down(
            cv,
            k - 1,
            lo as int,
        ));
        hi = k;
    }
    assert(parents_down(cv, hi - 1, lo as int) =~= Seq::<Seq<char>>::empty());
    assert(texts(out@) =~= start + ancestors(t@));
}

/// The paths to check for links before a torrent with the file paths
/// `paths` (relative) is written under `root`, in the order they are
/// checked: the folder and every folder above it; then, for each file and
/// each ordinary name of it in turn, the path reached under the folder and
/// every folder above it.
pub fn link_check_plan(root: &str, paths: &Vec<String>) -> (r: Vec<String>)
    ensures
        texts(r@) == link_checks(root@, texts(paths@)),
{
    let ghost ps = texts(paths@);
    let mut out: Vec<String> = Vec::new();
    let rv = chars_of(root);
    let root_text = string_of(&rv);
    append_ancestors(&mut out, &root_text);
    assert(texts(out@) =~= ancestors(root@));
    let mut i: usize = 0;
    while i < paths.len()
        invariant
            i <= paths@.len(),
            ps == texts(paths@),
            root_text@ == root@,
            rv@ == root@,
            texts(out@) == ancestors(root@) + file_checks(root@, ps, i as nat),
        decreases paths@.len() - i,
    {
        let pv = chars_of(paths[i].as_str());
        let cs = components_of(&pv);
        let ghost cv = comps_view(cs@);
        assert(cv == components(ps[i as int]));
        let ghost base = texts(out@);
        let mut cur = string_of(&rv);
        let mut j: usize = 0;
        while j < cs.len()
            invariant
                j <= cs@.len(),
                cv == comps_view(cs@),
                root_text@ == root@,
                cur@ == walk(root@, cv, j as nat).0,
                texts(out@) == base + walk(root@, cv, j as nat).1,
            decreases cs@.len() - j,
        {
            let is_normal = match &cs[j] {
                Comp::Normal(_) => true,
                _ => false,
            };
            if is_normal {
                cur = push_component(&cur, &cs[j]);
                let ghost before = texts(out@);
                append_ancestors(&mut out, &cur);
                assert(texts(out@) =~= base + walk(root@, cv, (j + 1) as nat).1);
            }
            j += 1;
        }
        assert(texts(out@) =~= ancestors(root@) + file_checks(root@, ps, (i + 1) as nat));
        i += 1;
    }
    out
}

/// The path a walk reaches, and every folder above it, is among the root's
/// ancestors or the paths the walk checks.
proof fn lemma_walk_covers(root: Seq<char>, cs: Seq<Component>, j: nat)
    requires
        j <= cs.len(),
    ensures
        forall|t: Seq<char>|
            #[trigger] ancestors(walk(root, cs, j).0).contains(t) ==> (ancestors(root).contains(t)
                || walk(root, cs, j).1.contains(t)),
    decreases j,
{
    if j > 0 {
        let m = (j - 1) as nat;
        lemma_walk_covers(root, cs, m);
        let (cur, acc) = walk(root, cs, m);
        if let Component::Normal(n) = cs[m as int] {
            let next = pushed(cur, Component::Normal(n));
            let a = ancestors(next);
            assert forall|t: Seq<char>| #[trigger] a.contains(t) implies (acc + a).contains(t) by {
                let w = choose|w: int| 0 <= w < a.len() && a[w] == t;
                assert((acc + a)[acc.len() + w] == t);
            }
        }
    }
}

/// Whatever the first `i` files' walks check is among the checks of the
/// first `n >= i` files.
proof fn lemma_file_checks_grow(root: Seq<char>, ps: Seq<Seq<char>>, i: nat, n: nat, t: Seq<char>)
    requires
        i <= n <= ps.len(),
        file_checks(root, ps, i).contains(t),
    ensures
        file_checks(root, ps, n).contains(t),
    decreases n - i,
{
    if i < n {
        lemma_file_checks_grow(root, ps, i, (n - 1) as nat, t);
        let a = file_checks(root, ps, (n - 1) as nat);
        let cs = components(ps[n - 1]);
        let b = walk(root, cs, cs.len()).1;
        let w = choose|w: int| 0 <= w < a.len() && a[w] == t;
        assert((a + b)[w] == t);
    }
}

/// Before a torrent is written, the output folder and every folder above
/// it are checked for links, and so is, for each file, the path its names
/// lead to under the folder and every folder above that path.
pub proof fn law_every_folder_on_the_way_is_checked(root: Seq<char>, ps: Seq<Seq<char>>)
    ensures
        forall|t: Seq<char>| #[trigger] ancestors(root).contains(t) ==> link_checks(root, ps).contains(t),
        forall|i: int, t: Seq<char>|
            0 <= i < ps.len() && #[trigger] ancestors(
                walk(root, components(ps[i]), components(ps[i]).len()).0,
            ).contains(t) ==> link_checks(root, ps).contains(t),
{
    let r = ancestors(root);
    let f = file_checks(root, ps, ps.len());
    assert forall|t: Seq<char>| #[trigger] r.contains(t) implies (r + f).contains(t) by {
        let w = choose|w: int| 0 <= w < r.len() && r[w] == t;
        assert((r + f)[w] == t);
    }
    assert forall|i: int, t: Seq<char>|
        0 <= i < ps.len() && #[trigger] ancestors(
            walk(root, components(ps[i]), components(ps[i]).len()).0,
        ).contains(t) implies (r + f).contains(t) by {
        let cs = components(ps[i]);
        lemma_walk_covers(root, cs, cs.len());
        if r.contains(t) {
        } else {
            let b = walk(root, cs, cs.len()).1;
            assert(b.contains(t));
            let a = file_checks(root, ps, i as nat);
            assert(file_checks(root, ps, (i + 1) as nat) == a + b);
            let w = choose|w: int| 0 <= w < b.len() && b[w] == t;
            assert((a + b)[a.len() + w] == t);
            lemma_file_checks_grow(root, ps, (i + 1) as nat, ps.len(), t);
            let w2 = choose|w: int| 0 <= w < f.len() && f[w] == t;
            assert((r + f)[r.len() + w2] == t);
        }
    }
}

} // verus!
