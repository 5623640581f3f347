//! Naming of the partial files a download is written to before it is
//! renamed into place.

use vstd::prelude::*;

use crate::backend::{hex_digit, uuid_new_v4};
use crate::components::{
    components, components_of, comps_view, is_inner, lemma_components_single, lemma_components_wf,
    lemma_prefix_components, lemma_prefix_text_agrees, prefix_text, push_component, wf_comps, Comp,
    Component,
};
use crate::error::Error;
use crate::path::{join_path, joined};
use crate::text::{chars_of, push_str, string_of};

verus! {

/// The simple (32 lower-case hex digits, no hyphens) text of a UUID, as
/// `uuid::Uuid::simple` writes it.
pub open spec fn uuid_simple(v: u128) -> Seq<char> {
    Seq::new(32, |i: int| hex_digit((v >> ((4 * (31 - i)) as u128)) & 0xfu128))
}

/// Writes the simple text of a UUID.
pub fn uuid_simple_text(v: u128) -> (r: String)
    ensures
        r@ == uuid_simple(v),
{
    let mut out: Vec<char> = Vec::new();
    for i in 0..32usize
        invariant
            out@ == uuid_simple(v).take(i as int),
    {
        let shift: u128 = (4 * (31 - i)) as u128;
        let d: u128 = (v >> shift) & 0xf;
        assert(d < 16) by (bit_vector)
            requires
                d == (v >> shift) & 0xf,
        ;
        let c = if d < 10 {
            ((d + 48) as u8) as char
        } else {
            ((d + 87) as u8) as char
        };
        assert(c == hex_digit(d));
        out.push(c);
        assert(uuid_simple(v).take(i + 1) =~= uuid_simple(v).take(i as int).push(
            uuid_simple(v)[i as int],
        ));
    }
    assert(uuid_simple(v).take(32) =~= uuid_simple(v));
    string_of(&out)
}

/// The name of the partial file for a final path with the last component
/// `name` (`None` when the path does not end in a name): hidden, tagged
/// with the identifier, ending in `.part`.
pub open spec fn part_name(cs: Seq<Component>, id: u128) -> Seq<char> {
    if cs.len() > 0 && cs.last() is Normal {
        "."@ + cs.last()->Normal_0 + "."@ + uuid_simple(id) + ".part"@
    } else {
        "download."@ + uuid_simple(id) + ".part"@
    }
}

/// The partial file for a final path: next to it (in the directory its
/// components up to the last one name), or on its own where that directory
/// is empty or the path has no parent.
pub open spec fn part_path(s: Seq<char>, id: u128) -> Seq<char> {
    let cs = components(s);
    let name = part_name(cs, id);
    if cs.len() == 0 || cs == seq![Component::RootDir] {
        name
    } else {
        let parent = prefix_text(cs, (cs.len() - 1) as nat);
        if parent.len() == 0 {
            name
        } else {
            joined(parent, name)
        }
    }
}

/// The partial file for `final_path` tagged with identifier `id`.
pub fn part_file_path(final_path: &str, id: u128) -> (r: String)
    ensures
        r@ == part_path(final_path@, id),
{
    let v = chars_of(final_path);
    let cs = components_of(&v);
    let ghost cv = comps_view(cs@);
    let n = cs.len();
    let tag = uuid_simple_text(id);
    let mut name = String::new();
    let last_normal = n > 0 && match &cs[n - 1] {
        Comp::Normal(_) => true,
        _ => false,
    };
    if last_normal {
        if let Comp::Normal(last) = &cs[n - 1] {
            push_str(&mut name, ".");
            let l = string_of(last);
            push_str(&mut name, l.as_str());
            push_str(&mut name, ".");
        }
    } else {
        push_str(&mut name, "download.");
    }
    push_str(&mut name, tag.as_str());
    push_str(&mut name, ".part");
    assert(name@ == part_name(cv, id));
    if n == 0 {
        return name;
    }
    if n == 1 {
        if let Comp::RootDir = &cs[0] {
            assert(cv =~= seq![Component::RootDir]);
            return name;
        }
    }
    assert(cv != seq![Component::RootDir]) by {
        if cv == seq![Component::RootDir] {
            assert(cv[0] == cs@[0]@);
        }
    }
    let mut parent = String::new();
    for k in 0..n - 1
        invariant
            n == cs@.len(),
            n > 0,
            cv == comps_view(cs@),
            parent@ == prefix_text(cv, k as nat),
    {
        parent = push_component(&parent, &cs[k]);
    }
    let pv = chars_of(parent.as_str());
    if pv.len() == 0 {
        name
    } else {
        join_path(parent.as_str(), name.as_str())
    }
}

/// No character of the simple text of a UUID is a separator.
proof fn lemma_uuid_simple_no_sep(v: u128)
    ensures
        !uuid_simple(v).contains('/'),
{
    let u = uuid_simple(v);
    assert forall|i: int| 0 <= i < u.len() implies u[i] != '/' by {
        let sh = (4 * (31 - i)) as u128;
        let d = (v >> sh) & 0xfu128;
        assert(d < 16) by (bit_vector)
            requires
                d == (v >> sh) & 0xfu128,
        ;
        if d < 10 {
            assert((((d + 48) as u32) as char) as u32 == d + 48);
        } else {
            assert((((d + 87) as u32) as char) as u32 == d + 87);
        }
        assert(u[i] == hex_digit(d));
    }
}

/// The name of a partial file is a single inner component: not empty, no
/// separator in it, and neither `.` nor `..`.
proof fn lemma_part_name_inner(cs: Seq<Component>, id: u128)
    requires
        wf_comps(cs),
    ensures
        is_inner(Component::Normal(part_name(cs, id))),
        part_name(cs, id).len() > 2,
        part_name(cs, id)[0] == '.' || part_name(cs, id)[0] == 'd',
{
    let name = part_name(cs, id);
    lemma_uuid_simple_no_sep(id);
    reveal_strlit(".");
    reveal_strlit(".part");
    reveal_strlit("download.");
    let u = uuid_simple(id);
    if cs.len() > 0 && cs.last() is Normal {
        let last = cs.last()->Normal_0;
        assert(is_inner(cs[cs.len() - 1]));
        let a = "."@ + last + "."@;
        assert(name == a + u + ".part"@);
        assert forall|i: int| 0 <= i < name.len() implies name[i] != '/' by {
            if i == 0 {
            } else if i < 1 + last.len() {
                assert(name[i] == last[i - 1]);
            } else if i == 1 + last.len() {
            } else if i < 2 + last.len() + 32 {
                assert(name[i] == u[i - 2 - last.len()]);
            } else {
                assert(name[i] == ".part"@[i - 34 - last.len()]);
            }
        }
        assert(name[0] == '.');
    } else {
        assert forall|i: int| 0 <= i < name.len() implies name[i] != '/' by {
            if i < 9 {
                assert(name[i] == "download."@[i]);
            } else if i < 41 {
                assert(name[i] == u[i - 9]);
            } else {
                assert(name[i] == ".part"@[i - 41]);
            }
        }
        assert(name[0] == 'd');
    }
    assert(name.len() > 2);
    assert(name != seq!['.']);
    assert(name != seq!['.', '.']);
}

/// The partial file sits in the same directory as the final path: its
/// components are those of the final path with the last one replaced by
/// the partial file's name, so renaming it into place stays in one
/// directory.
pub proof fn law_part_file_is_a_sibling(s: Seq<char>, id: u128)
    requires
        components(s).len() > 0,
    ensures
        components(part_path(s, id)) == components(s).drop_last().push(
            Component::Normal(part_name(components(s), id)),
        ),
{
    let cs = components(s);
    let n = cs.len();
    let name = part_name(cs, id);
    let c2 = cs.drop_last().push(Component::Normal(name));
    lemma_components_wf(s);
    lemma_part_name_inner(cs, id);
    assert(wf_comps(c2)) by {
        assert forall|i: int| 0 <= i < c2.len() implies (is_inner(#[trigger] c2[i]) || (i == 0 && (
        c2[i] is RootDir || c2[i] is CurDir))) by {
            if i < n - 1 {
                assert(c2[i] == cs[i]);
            }
        }
    }
    lemma_prefix_components(c2, n);
    assert(c2.take(n as int) =~= c2);
    let k = (n - 1) as nat;
    assert(cs.take(k as int) =~= c2.take(k as int));
    lemma_prefix_text_agrees(cs, c2, k);
    let t = prefix_text(cs, k);
    assert(prefix_text(c2, n) == crate::components::pushed(t, Component::Normal(name)));
    if n == 1 {
        assert(t.len() == 0);
        assert(t + name =~= name);
    } else {
        if t.len() == 0 {
            assert(t + name =~= name);
        }
    }
}

/// Whether a finished partial file may be renamed onto `final_path`:
/// without `overwrite`, a target that already exists is refused and the
/// partial file is kept.
pub fn may_finalize(final_path: &str, overwrite: bool, target_exists: bool) -> (r: Result<(), Error>)
    ensures
        !overwrite && target_exists ==> (r matches Err(Error::AlreadyExists(m)) && m@ == final_path@),
        overwrite || !target_exists ==> r is Ok,
{
    if !overwrite && target_exists {
        let v = chars_of(final_path);
        Err(Error::AlreadyExists(string_of(&v)))
    } else {
        Ok(())
    }
}

/// Filesystem helper used by the download engine.
pub struct FileStorage;

impl FileStorage {
    /// Creates a new storage rooted at the current directory.
    pub fn new() -> (r: FileStorage) {
        FileStorage
    }

    /// A fresh partial-file path for `final_path`: the partial file for it
    /// tagged with a new random (version 4) identifier.
    pub fn part_path_for(&self, final_path: &str) -> (r: String)
        ensures
            exists|id: u128|
                (id >> 76u128) & 0xfu128 == 4 && (id >> 62u128) & 0x3u128 == 2 && r@ == part_path(
                    final_path@,
                    id,
                ),
    {
        let id = uuid_new_v4();
        part_file_path(final_path, id)
    }
}

impl Default for FileStorage {
    fn default() -> (r: FileStorage) {
        FileStorage::new()
    }
}

} // verus!
