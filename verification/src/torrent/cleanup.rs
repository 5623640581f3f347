//! The order in which the files and folders of a torrent are removed when
//! its data is disposed of: files deepest first, then every folder above
//! them, deepest first, each once.

use vstd::prelude::*;

use crate::components::{
    components, components_of, comps_view, lemma_components_wf, lemma_prefix_components, prefix_text,
    push_component, Comp, Component,
};
use crate::path::{join_path, joined};
use crate::text::{chars_of, str_equal};
use crate::torrent::layout::texts;

verus! {

/// The texts of `x` whose depth is `v`, in order.
pub open spec fn group(x: Seq<(Seq<char>, nat)>, v: nat) -> Seq<Seq<char>>
    decreases x.len(),
{
    if x.len() == 0 {
        Seq::<Seq<char>>::empty()
    } else {
        let g = group(x.drop_last(), v);
        if x.last().1 == v {
            g.push(x.last().0)
        } else {
            g
        }
    }
}

/// The groups of depth `v`, `v - 1`, ..., `0`, in that order.
pub open spec fn deepest_first(x: Seq<(Seq<char>, nat)>, v: nat) -> Seq<Seq<char>>
    decreases v,
{
    if v == 0 {
        group(x, 0)
    } else {
        group(x, v) + deepest_first(x, (v - 1) as nat)
    }
}

/// The largest depth in `x` (0 for an empty list).
pub open spec fn max_depth(x: Seq<(Seq<char>, nat)>) -> nat
    decreases x.len(),
{
    if x.len() == 0 {
        0
    } else {
        let m = max_depth(x.drop_last());
        if x.last().1 > m {
            x.last().1
        } else {
            m
        }
    }
}

/// `x` sorted by depth, deepest first, keeping the order of equal depths
/// (a stable sort by descending depth).
pub open spec fn by_depth(x: Seq<(Seq<char>, nat)>) -> Seq<Seq<char>> {
    deepest_first(x, max_depth(x))
}

/// `s` without repeats of the element just before (`Vec::dedup`).
pub open spec fn dedup(s: Seq<Seq<char>>) -> Seq<Seq<char>>
    decreases s.len(),
{
    if s.len() < 2 {
        s
    } else if s.last() == s[s.len() - 2] {
        dedup(s.drop_last())
    } else {
        dedup(s.drop_last()).push(s.last())
    }
}

/// The folders above a path with components `cs` that are not the folder
/// `f` itself, walking up from the nearest: the first `k` components for
/// `k` from `hi` down to `lo`, with their depth.
pub open spec fn folders_down(cs: Seq<Component>, f: Seq<Component>, hi: int, lo: int) -> Seq<
    (Seq<char>, nat),
>
    decreases hi - lo + 1,
{
    if hi < lo {
        Seq::<(Seq<char>, nat)>::empty()
    } else {
        let here = if cs.take(hi) != f {
            seq![(prefix_text(cs, hi as nat), hi as nat)]
        } else {
            Seq::<(Seq<char>, nat)>::empty()
        };
        here + folders_down(cs, f, hi - 1, lo)
    }
}

/// Every folder above a path (`Path::parent` repeatedly, up to the root or
/// the empty path), except `f`.
pub open spec fn folders_above(cs: Seq<Component>, f: Seq<Component>) -> Seq<(Seq<char>, nat)> {
    if cs.len() == 0 {
        Seq::<(Seq<char>, nat)>::empty()
    } else {
        folders_down(cs, f, cs.len() - 1, if cs[0] is RootDir { 1 } else { 0 })
    }
}

/// The full paths of the files, with their depth.
pub open spec fn file_entries(folder: Seq<char>, files: Seq<Seq<char>>) -> Seq<(Seq<char>, nat)> {
    Seq::new(
        files.len(),
        |i: int| (joined(folder, files[i]), components(joined(folder, files[i])).len()),
    )
}

/// The folders above the first `n` files, file by file.
pub open spec fn folder_entries(folder: Seq<char>, files: Seq<Seq<char>>, n: nat) -> Seq<
    (Seq<char>, nat),
>
    decreases n,
{
    if n == 0 {
        Seq::<(Seq<char>, nat)>::empty()
    } else {
        folder_entries(folder, files, (n - 1) as nat) + folders_above(
            components(joined(folder, files[n - 1])),
            components(folder),
        )
    }
}

/// The files of a torrent under `folder`, deepest first.
pub open spec fn file_removal_order(folder: Seq<char>, files: Seq<Seq<char>>) -> Seq<Seq<char>> {
    by_depth(file_entries(folder, files))
}

/// The folders to remove afterwards, deepest first, each once.
pub open spec fn folder_removal_order(folder: Seq<char>, files: Seq<Seq<char>>) -> Seq<Seq<char>> {
    dedup(by_depth(folder_entries(folder, files, files.len())))
}

/// Texts with depths, taken by view.
pub open spec fn entries_view(x: Seq<(String, usize)>) -> Seq<(Seq<char>, nat)> {
    Seq::new(x.len(), |i: int| (x[i].0@, x[i].1 as nat))
}

/// Appends the texts of `x` whose depth is `v`, in order.
fn append_group(out: &mut Vec<String>, x: &Vec<(String, usize)>, v: usize)
    ensures
        texts(final(out)@) == texts(old(out)@) + group(entries_view(x@), v as nat),
{
    let ghost start = texts(out@);
    let ghost xv = entries_view(x@);
    let n = x.len();
    for i in 0..n
        invariant
            n == x@.len(),
            xv == entries_view(x@),
            texts(out@) == start + group(xv.take(i as int), v as nat),
    {
        assert(xv.take(i + 1).drop_last() =~= xv.take(i as int));
        assert(xv.take(i + 1).last() == xv[i as int]);
        let ghost before = out@;
        if x[i].1 == v {
            out.push(x[i].0.clone());
            assert(texts(out@) =~= texts(before).push(x@[i as int].0@));
        }
    }
    assert(xv.take(n as int) =~= xv);
}

/// `x` sorted by depth, deepest first, equal depths in their order.
fn sort_by_depth(x: &Vec<(String, usize)>) -> (r: Vec<String>)
    ensures
        texts(r@) == by_depth(entries_view(x@)),
{
    let ghost xv = entries_view(x@);
    let n = x.len();
    let mut m: usize = 0;
    for i in 0..n
        invariant
            n == x@.len(),
            xv == entries_view(x@),
            m == max_depth(xv.take(i as int)),
    {
        assert(xv.take(i + 1).drop_last() =~= xv.take(i as int));
        if x[i].1 > m {
            m = x[i].1;
        }
    }
    assert(xv.take(n as int) =~= xv);
    let mut out: Vec<String> = Vec::new();
    let mut v = m;
    assert(texts(out@) + deepest_first(xv, v as nat) =~= deepest_first(xv, m as nat));
    loop
        invariant_except_break
            texts(out@) + deepest_first(xv, v as nat) == deepest_first(xv, m as nat),
        invariant
            xv == entries_view(x@),
            v <= m,
            m == max_depth(xv),
        ensures
            texts(out@) == deepest_first(xv, m as nat),
        decreases v,
    {
        let ghost before = texts(out@);
        append_group(&mut out, x, v);
        if v == 0 {
            assert(texts(out@) =~= before + deepest_first(xv, 0));
            break;
        }
        assert(deepest_first(xv, v as nat) == group(xv, v as nat) + deepest_first(
            xv,
            (v - 1) as nat,
        ));
        assert(texts(out@) + deepest_first(xv, (v - 1) as nat) =~= before + deepest_first(
            xv,
            v as nat,
        ));
        v = v - 1;
    }
    out
}

/// `s` without repeats of the element just before.
fn dedup_texts(s: &Vec<String>) -> (r: Vec<String>)
    ensures
        texts(r@) == dedup(texts(s@)),
{
    let ghost sv = texts(s@);
    let n = s.len();
    let mut out: Vec<String> = Vec::new();
    for i in 0..n
        invariant
            n == s@.len(),
            sv == texts(s@),
            texts(out@) == dedup(sv.take(i as int)),
    {
        let ghost t = sv.take(i + 1);
        assert(t.drop_last() =~= sv.take(i as int));
        assert(t.last() == s@[i as int]@);
        let ghost before = out@;
        if i > 0 && str_equal(s[i].as_str(), s[i - 1].as_str()) {
            assert(t[t.len() - 2] == s@[i - 1]@);
        } else {
            if i > 0 {
                assert(t[t.len() - 2] == s@[i - 1]@);
            } else {
                assert(t =~= seq![s@[0]@]);
            }
            out.push(s[i].clone());
            assert(texts(out@) =~= texts(before).push(s@[i as int]@));
        }
    }
    assert(sv.take(n as int) =~= sv);
    out
}

/// The text of the path made of the first `k` components of `cs`.
pub(crate) fn prefix_string(cs: &Vec<Comp>, k: usize) -> (r: String)
    requires
        k <= cs@.len(),
    ensures
        r@ == prefix_text(comps_view(cs@), k as nat),
{
    let ghost cv = comps_view(cs@);
    let mut t = String::new();
    for j in 0..k
        invariant
            k <= cs@.len(),
            cv == comps_view(cs@),
            t@ == prefix_text(cv, j as nat),
    {
        t = push_component(&t, &cs[j]);
    }
    t
}

/// `true` when the first `k` components of `cs` are exactly `f`.
fn prefix_is(cs: &Vec<Comp>, k: usize, f: &Vec<Comp>) -> (r: bool)
    requires
        k <= cs@.len(),
    ensures
        r == (comps_view(cs@).take(k as int) == comps_view(f@)),
{
    let ghost cv = comps_view(cs@);
    let ghost fv = comps_view(f@);
    if k != f.len() {
        assert(cv.take(k as int).len() != fv.len());
        return false;
    }
    for j in 0..k
        invariant
            k <= cs@.len(),
            k == f@.len(),
            cv == comps_view(cs@),
            fv == comps_view(f@),
            forall|i: int| 0 <= i < j ==> cv[i] == fv[i],
    {
        if !crate::torrent::path::comp_eq(&cs[j], &f[j]) {
            assert(cv.take(k as int)[j as int] != fv[j as int]);
            return false;
        }
    }
    assert(cv.take(k as int) =~= fv);
    true
}

/// Appends the folders above a path (components `cs`), except `f`.
fn append_folders(out: &mut Vec<(String, usize)>, cs: &Vec<Comp>, f: &Vec<Comp>)
    ensures
        entries_view(final(out)@) == entries_view(old(out)@) + folders_above(
            comps_view(cs@),
            comps_view(f@),
        ),
{
    let ghost cv = comps_view(cs@);
    let ghost fv = comps_view(f@);
    let ghost start = entries_view(out@);
    let n = cs.len();
    if n == 0 {
        assert(entries_view(out@) =~= start + folders_above(cv, fv));
        return;
    }
    let lo: usize = match &cs[0] {
        Comp::RootDir => 1,
        _ => 0,
    };
    assert(lo == (if cv[0] is RootDir { 1int } else { 0int }));
    let mut hi: usize = n;
    assert(folders_down(cv, fv, hi - 1, lo as int) == folders_above(cv, fv));
    assert(entries_view(out@) =~= start);
    while hi > lo
        invariant
            n == cs@.len(),
            n > 0,
            cv == comps_view(cs@),
            fv == comps_view(f@),
            lo <= hi <= n,
            entries_view(out@) + folders_down(cv, fv, hi - 1, lo as int) == start + folders_above(
                cv,
                fv,
            ),
        decreases hi,
    {
        let k = hi - 1;
        let ghost before = entries_view(out@);
        if !prefix_is(cs, k, f) {
            let t = prefix_string(cs, k);
            out.push((t, k));
            assert(entries_view(out@) =~= before.push((prefix_text(cv, k as nat), k as nat)));
        } else {
            assert(entries_view(out@) =~= before);
        }
        assert(before + folders_down(cv, fv, k as int, lo as int) =~= entries_view(out@)
            + folders_down(cv, fv, k - 1, lo as int));
        hi = k;
    }
    assert(folders_down(cv, fv, hi - 1, lo as int) =~= Seq::<(Seq<char>, nat)>::empty());
    assert(entries_view(out@) =~= start + folders_above(cv, fv));
}

/// The order in which a torrent's data under `folder` is removed: its files
/// (`files`, relative to the folder), deepest first, equal depths in their
/// order; then every folder above them other than `folder`, deepest first,
/// each once.
pub fn removal_plan(folder: &str, files: &Vec<String>) -> (r: (Vec<String>, Vec<String>))
    ensures
        texts(r.0@) == file_removal_order(folder@, texts(files@)),
        texts(r.1@) == folder_removal_order(folder@, texts(files@)),
{
    let ghost fs = texts(files@);
    let fvec = chars_of(folder);
    let fcs = components_of(&fvec);
    let n = files.len();
    let mut entries: Vec<(String, usize)> = Vec::new();
    let mut dirs: Vec<(String, usize)> = Vec::new();
    for i in 0..n
        invariant
            n == files@.len(),
            fs == texts(files@),
            fvec@ == folder@,
            comps_view(fcs@) == components(folder@),
            entries_view(entries@) == file_entries(folder@, fs).take(i as int),
            entries_view(dirs@) == folder_entries(folder@, fs, i as nat),
    {
        let full = join_path(folder, files[i].as_str());
        let fullv = chars_of(full.as_str());
        let cs = components_of(&fullv);
        let ghost before = entries_view(entries@);
        let depth = cs.len();
        entries.push((full, depth));
        assert(entries_view(entries@) =~= before.push(file_entries(folder@, fs)[i as int]));
        assert(file_entries(folder@, fs).take(i + 1) =~= file_entries(folder@, fs).take(
            i as int,
        ).push(file_entries(folder@, fs)[i as int]));
        append_folders(&mut dirs, &cs, &fcs);
    }
    assert(file_entries(folder@, fs).take(n as int) =~= file_entries(folder@, fs));
    let files_order = sort_by_depth(&entries);
    let sorted_dirs = sort_by_depth(&dirs);
    let dirs_order = dedup_texts(&sorted_dirs);
    (files_order, dirs_order)
}

/// The texts of a list of entries.
pub open spec fn names(x: Seq<(Seq<char>, nat)>) -> Seq<Seq<char>> {
    x.map_values(|e: (Seq<char>, nat)| e.0)
}

/// Sorting an empty list gives nothing.
proof fn lemma_deepest_first_empty(v: nat)
    ensures
        deepest_first(Seq::<(Seq<char>, nat)>::empty(), v) == Seq::<Seq<char>>::empty(),
    decreases v,
{
    if v > 0 {
        lemma_deepest_first_empty((v - 1) as nat);
        assert(deepest_first(Seq::<(Seq<char>, nat)>::empty(), v) =~= Seq::<Seq<char>>::empty());
    }
}

/// One more entry adds its text to the sorted list when its depth is
/// covered.
proof fn lemma_deepest_first_push(x: Seq<(Seq<char>, nat)>, e: (Seq<char>, nat), v: nat)
    ensures
        deepest_first(x.push(e), v).to_multiset() == (if e.1 <= v {
            deepest_first(x, v).to_multiset().insert(e.0)
        } else {
            deepest_first(x, v).to_multiset()
        }),
    decreases v,
{
    broadcast use vstd::seq_lib::group_to_multiset_ensures;

    let y = x.push(e);
    assert(y.drop_last() =~= x);
    assert(y.last() == e);
    vstd::seq_lib::lemma_multiset_commutative(group(y, v), Seq::<Seq<char>>::empty());
    if v > 0 {
        lemma_deepest_first_push(x, e, (v - 1) as nat);
        vstd::seq_lib::lemma_multiset_commutative(group(y, v), deepest_first(y, (v - 1) as nat));
        vstd::seq_lib::lemma_multiset_commutative(group(x, v), deepest_first(x, (v - 1) as nat));
        if e.1 == v {
            assert(group(y, v) == group(x, v).push(e.0));
        } else {
            assert(group(y, v) == group(x, v));
        }
    } else {
        if e.1 == 0 {
            assert(group(y, 0) == group(x, 0).push(e.0));
        } else {
            assert(group(y, 0) == group(x, 0));
        }
    }
}

/// Sorting by depth with a bound at least every depth keeps every text, as
/// often as it occurs.
proof fn lemma_deepest_first_keeps_all(x: Seq<(Seq<char>, nat)>, v: nat)
    requires
        v >= max_depth(x),
    ensures
        deepest_first(x, v).to_multiset() == names(x).to_multiset(),
    decreases x.len(),
{
    broadcast use vstd::seq_lib::group_to_multiset_ensures;

    if x.len() == 0 {
        lemma_deepest_first_empty(v);
        assert(x =~= Seq::<(Seq<char>, nat)>::empty());
        assert(names(x) =~= Seq::<Seq<char>>::empty());
    } else {
        let y = x.drop_last();
        let e = x.last();
        assert(y.push(e) =~= x);
        assert(e.1 <= v);
        lemma_deepest_first_keeps_all(y, v);
        lemma_deepest_first_push(y, e, v);
        assert(names(x) =~= names(y).push(e.0));
        assert(deepest_first(x, v).to_multiset() == deepest_first(y, v).to_multiset().insert(e.0));
    }
}

/// Disposing of a torrent's data removes each of its files, as often as
/// the list names it and nothing else: the file order is a rearrangement of
/// the files' full paths.
pub proof fn law_every_file_is_removed(folder: Seq<char>, files: Seq<Seq<char>>)
    ensures
        file_removal_order(folder, files).to_multiset() == Seq::new(
            files.len(),
            |i: int| joined(folder, files[i]),
        ).to_multiset(),
{
    let x = file_entries(folder, files);
    lemma_deepest_first_keeps_all(x, max_depth(x));
    assert(names(x) =~= Seq::new(files.len(), |i: int| joined(folder, files[i])));
}

/// `t` names a folder strictly above the full path of one of the files:
/// its components are the first `k` components of that path, for a `k`
/// short of all of them.
pub open spec fn above_a_file(folder: Seq<char>, files: Seq<Seq<char>>, t: Seq<char>) -> bool {
    exists|i: int, k: int|
        0 <= i < files.len() && 0 <= k < components(joined(folder, files[i])).len() && components(t)
            == #[trigger] components(joined(folder, files[i])).take(k)
}

/// A folder the removal may take: above one of the files, and not the
/// torrent's own folder.
pub open spec fn removable_folder(folder: Seq<char>, files: Seq<Seq<char>>, t: Seq<char>) -> bool {
    components(t) != components(folder) && above_a_file(folder, files, t)
}

/// The folders walked up from one file are removable folders.
proof fn lemma_folders_down_removable(folder: Seq<char>, files: Seq<Seq<char>>, i: int, hi: int, lo: int)
    requires
        0 <= i < files.len(),
        0 <= lo,
        hi < components(joined(folder, files[i])).len(),
    ensures
        forall|j: int|
            0 <= j < folders_down(components(joined(folder, files[i])), components(folder), hi, lo).len()
                ==> removable_folder(
                folder,
                files,
                #[trigger] folders_down(
                    components(joined(folder, files[i])),
                    components(folder),
                    hi,
                    lo,
                )[j].0,
            ),
    decreases hi - lo + 1,
{
    let cs = components(joined(folder, files[i]));
    let f = components(folder);
    if hi >= lo {
        lemma_folders_down_removable(folder, files, i, hi - 1, lo);
        let rest = folders_down(cs, f, hi - 1, lo);
        let here = if cs.take(hi) != f {
            seq![(prefix_text(cs, hi as nat), hi as nat)]
        } else {
            Seq::<(Seq<char>, nat)>::empty()
        };
        assert(folders_down(cs, f, hi, lo) == here + rest);
        if cs.take(hi) != f {
            lemma_components_wf(joined(folder, files[i]));
            lemma_prefix_components(cs, hi as nat);
            let t = prefix_text(cs, hi as nat);
            assert(components(t) == components(joined(folder, files[i])).take(hi));
            assert(above_a_file(folder, files, t));
        }
        assert forall|j: int| 0 <= j < (here + rest).len() implies removable_folder(
            folder,
            files,
            #[trigger] (here + rest)[j].0,
        ) by {
            if j >= here.len() {
                assert((here + rest)[j] == rest[j - here.len()]);
            }
        }
    }
}

/// The folders collected for the first `n` files are removable folders.
proof fn lemma_folder_entries_removable(folder: Seq<char>, files: Seq<Seq<char>>, n: nat)
    requires
        n <= files.len(),
    ensures
        forall|j: int|
            0 <= j < folder_entries(folder, files, n).len() ==> removable_folder(
                folder,
                files,
                #[trigger] folder_entries(folder, files, n)[j].0,
            ),
    decreases n,
{
    if n > 0 {
        let m = (n - 1) as nat;
        lemma_folder_entries_removable(folder, files, m);
        let a = folder_entries(folder, files, m);
        let cs = components(joined(folder, files[m as int]));
        let b = folders_above(cs, components(folder));
        if cs.len() > 0 {
            lemma_folders_down_removable(
                folder,
                files,
                m as int,
                cs.len() - 1,
                if cs[0] is RootDir {
                    1
                } else {
                    0
                },
            );
        }
        assert forall|j: int| 0 <= j < (a + b).len() implies removable_folder(
            folder,
            files,
            #[trigger] (a + b)[j].0,
        ) by {
            if j >= a.len() {
                assert((a + b)[j] == b[j - a.len()]);
            } else {
                assert((a + b)[j] == a[j]);
            }
        }
    }
}

/// What `dedup` keeps was in the list.
proof fn lemma_dedup_within(s: Seq<Seq<char>>)
    ensures
        forall|j: int| 0 <= j < dedup(s).len() ==> s.contains(#[trigger] dedup(s)[j]),
    decreases s.len(),
{
    if s.len() >= 2 {
        let t = s.drop_last();
        lemma_dedup_within(t);
        assert forall|j: int| 0 <= j < dedup(s).len() implies s.contains(#[trigger] dedup(s)[j]) by {
            if j < dedup(t).len() {
                assert(dedup(s)[j] == dedup(t)[j]);
                let w = choose|w: int| 0 <= w < t.len() && t[w] == dedup(t)[j];
                assert(s[w] == t[w]);
            } else {
                assert(dedup(s)[j] == s.last());
                assert(s[s.len() - 1] == s.last());
            }
        }
    }
}

/// Disposing of a torrent's data removes, after the files, only folders
/// that lie above one of the files, and never the torrent's own folder:
/// each folder of the order has the first components of a file's full
/// path, short of the file itself, and components other than the folder's.
pub proof fn law_only_folders_above_the_files_are_removed(folder: Seq<char>, files: Seq<Seq<char>>)
    ensures
        forall|j: int|
            0 <= j < folder_removal_order(folder, files).len() ==> removable_folder(
                folder,
                files,
                #[trigger] folder_removal_order(folder, files)[j],
            ),
{
    broadcast use vstd::seq_lib::group_to_multiset_ensures;

    let x = folder_entries(folder, files, files.len());
    lemma_folder_entries_removable(folder, files, files.len());
    let s = by_depth(x);
    lemma_deepest_first_keeps_all(x, max_depth(x));
    lemma_dedup_within(s);
    assert forall|j: int| 0 <= j < folder_removal_order(folder, files).len() implies removable_folder(
        folder,
        files,
        #[trigger] folder_removal_order(folder, files)[j],
    ) by {
        let t = folder_removal_order(folder, files)[j];
        assert(s.contains(t));
        assert(s.to_multiset().count(t) > 0);
        assert(names(x).to_multiset().count(t) > 0);
        assert(names(x).contains(t));
        let w = choose|w: int| 0 <= w < names(x).len() && names(x)[w] == t;
        assert(x[w].0 == t);
    }
}

} // verus!
