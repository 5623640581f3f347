//! How a download record is stored as a database row and read back.
//!
//! The row holds protocol-neutral columns plus the protocol-specific
//! metadata as JSON text. Counts and times are stored as signed 64-bit
//! integers.

use vstd::prelude::*;

use crate::backend::{kind_from_text, kind_text, uuid_hyphenated, uuid_parse, BackendKind, DownloadId};
use crate::error::{error_text, Error};
use crate::record::{copy_opt_text, opt_text, Download, DownloadView};
use crate::state::{state_from_text, state_text, DownloadState};
use crate::text::push_str;
use crate::url::{url_parse, Url};

verus! {

/// One row of the `downloads` table.
pub struct DownloadRow {
    pub id: String,
    pub url: String,
    pub destination: String,
    pub backend: String,
    pub state: String,
    pub overwrite: i64,
    pub total_bytes: Option<i64>,
    pub downloaded_bytes: i64,
    pub error: Option<String>,
    pub created_at: i64,
    pub updated_at: i64,
    pub started_at: Option<i64>,
    pub completed_at: Option<i64>,
    pub backend_meta: Option<String>,
}

/// The value of a row, with texts taken by their views.
pub struct DownloadRowView {
    pub id: Seq<char>,
    pub url: Seq<char>,
    pub destination: Seq<char>,
    pub backend: Seq<char>,
    pub state: Seq<char>,
    pub overwrite: i64,
    pub total_bytes: Option<i64>,
    pub downloaded_bytes: i64,
    pub error: Option<Seq<char>>,
    pub created_at: i64,
    pub updated_at: i64,
    pub started_at: Option<i64>,
    pub completed_at: Option<i64>,
    pub backend_meta: Option<Seq<char>>,
}

impl View for DownloadRow {
    type V = DownloadRowView;

    open spec fn view(&self) -> DownloadRowView {
        DownloadRowView {
            id: self.id@,
            url: self.url@,
            destination: self.destination@,
            backend: self.backend@,
            state: self.state@,
            overwrite: self.overwrite,
            total_bytes: self.total_bytes,
            downloaded_bytes: self.downloaded_bytes,
            error: opt_text(self.error),
            created_at: self.created_at,
            updated_at: self.updated_at,
            started_at: self.started_at,
            completed_at: self.completed_at,
            backend_meta: opt_text(self.backend_meta),
        }
    }
}

/// Why a row could not be read back: the column and the description of
/// what was wrong with it.
pub struct RowError {
    pub column: usize,
    pub message: String,
}

/// A count or time stored as a signed integer, saturating at its maximum.
pub open spec fn stored(v: u64) -> i64 {
    if v <= i64::MAX as u64 {
        v as i64
    } else {
        i64::MAX
    }
}

/// A stored count or time read back, with negative values as zero.
pub open spec fn loaded(v: i64) -> u64 {
    if v < 0 {
        0
    } else {
        v as u64
    }
}

/// An optional total stored only where it fits.
pub open spec fn stored_total(t: Option<u64>) -> Option<i64> {
    match t {
        Some(v) => if v <= i64::MAX as u64 {
            Some(v as i64)
        } else {
            None
        },
        None => None,
    }
}

/// An optional stored value read back.
pub open spec fn loaded_opt(t: Option<i64>) -> Option<u64> {
    match t {
        Some(v) => Some(loaded(v)),
        None => None,
    }
}

/// An optional time stored.
pub open spec fn stored_opt(t: Option<u64>) -> Option<i64> {
    match t {
        Some(v) => Some(stored(v)),
        None => None,
    }
}

/// The row a download record is stored as.
pub open spec fn saved_row(d: DownloadView) -> DownloadRowView {
    DownloadRowView {
        id: uuid_hyphenated(d.id.0),
        url: d.url,
        destination: d.destination,
        backend: kind_text(d.backend),
        state: state_text(d.state),
        overwrite: if d.overwrite {
            1
        } else {
            0
        },
        total_bytes: stored_total(d.total_bytes),
        downloaded_bytes: stored(d.downloaded_bytes),
        error: d.error,
        created_at: stored(d.created_at),
        updated_at: stored(d.updated_at),
        started_at: stored_opt(d.started_at),
        completed_at: stored_opt(d.completed_at),
        backend_meta: Some(d.backend_meta),
    }
}

/// `true` when a text is a JSON document `serde_json` accepts.
pub uninterp spec fn json_valid(s: Seq<char>) -> bool;

/// `serde_json::from_str::<serde_json::Value>`, asked only whether it
/// succeeds.
///
/// Trusted: the answer is named `json_valid` of the text.
#[verifier::external_body]
fn is_json(s: &str) -> (r: bool)
    ensures
        r == json_valid(s@),
{
    serde_json::from_str::<serde_json::Value>(s).is_ok()
}

/// The metadata a stored text is read back as: the text when it is JSON,
/// JSON `null` otherwise.
pub open spec fn loaded_meta(m: Option<Seq<char>>) -> Seq<char> {
    match m {
        Some(t) => if json_valid(t) {
            t
        } else {
            "null"@
        },
        None => "null"@,
    }
}

/// What reading a row back gives: the first column that does not convert,
/// with its description, or the record.
pub open spec fn loaded_row(r: DownloadRowView) -> Result<DownloadView, (int, Seq<char>)> {
    match uuid_parse(r.id) {
        Err(m) => Err((0, m)),
        Ok(id) => match url_parse(r.url) {
            Err(m) => Err((1, m)),
            Ok(u) => match kind_from_text(r.backend) {
                None => Err((3, "internal error: unknown backend kind: "@ + r.backend)),
                Some(backend) => match state_from_text(r.state) {
                    None => Err((4, "internal error: unknown download state: "@ + r.state)),
                    Some(state) => Ok(
                        DownloadView {
                            id: DownloadId(id),
                            url: u.text,
                            destination: r.destination,
                            backend,
                            state,
                            overwrite: r.overwrite != 0,
                            total_bytes: loaded_opt(r.total_bytes),
                            downloaded_bytes: loaded(r.downloaded_bytes),
                            created_at: loaded(r.created_at),
                            updated_at: loaded(r.updated_at),
                            started_at: loaded_opt(r.started_at),
                            completed_at: loaded_opt(r.completed_at),
                            error: r.error,
                            backend_meta: loaded_meta(r.backend_meta),
                        },
                    ),
                },
            },
        },
    }
}

/// A count or time as stored.
pub fn stored_value(v: u64) -> (r: i64)
    ensures
        r == stored(v),
{
    if v <= i64::MAX as u64 {
        v as i64
    } else {
        i64::MAX
    }
}

/// A stored count or time read back.
pub fn loaded_value(v: i64) -> (r: u64)
    ensures
        r == loaded(v),
{
    if v < 0 {
        0
    } else {
        v as u64
    }
}

/// An optional time as stored.
fn stored_opt_value(t: Option<u64>) -> (r: Option<i64>)
    ensures
        r == stored_opt(t),
{
    match t {
        Some(v) => Some(stored_value(v)),
        None => None,
    }
}

/// An optional stored value read back.
fn loaded_opt_value(t: Option<i64>) -> (r: Option<u64>)
    ensures
        r == loaded_opt(t),
{
    match t {
        Some(v) => Some(loaded_value(v)),
        None => None,
    }
}

/// The row a download record is stored as.
pub fn row_from_download(dl: &Download) -> (r: DownloadRow)
    ensures
        r@ == saved_row(dl@),
{
    let mut url = String::new();
    push_str(&mut url, dl.url.as_str());
    let mut backend = String::new();
    push_str(&mut backend, dl.backend.as_str());
    let mut state = String::new();
    push_str(&mut state, dl.state.as_str());
    let total_bytes = match dl.total_bytes {
        Some(v) => if v <= i64::MAX as u64 {
            Some(v as i64)
        } else {
            None
        },
        None => None,
    };
    let r = DownloadRow {
        id: dl.id.to_text(),
        url,
        destination: dl.destination.clone(),
        backend,
        state,
        overwrite: if dl.overwrite {
            1
        } else {
            0
        },
        total_bytes,
        downloaded_bytes: stored_value(dl.downloaded_bytes),
        error: copy_opt_text(&dl.error),
        created_at: stored_value(dl.created_at),
        updated_at: stored_value(dl.updated_at),
        started_at: stored_opt_value(dl.started_at),
        completed_at: stored_opt_value(dl.completed_at),
        backend_meta: Some(dl.backend_meta.clone()),
    };
    assert(r@ == saved_row(dl@));
    r
}

/// A row-reading result taken by its view.
pub open spec fn row_result_view(r: Result<Download, RowError>) -> Result<
    DownloadView,
    (int, Seq<char>),
> {
    match r {
        Ok(d) => Ok(d@),
        Err(e) => Err((e.column as int, e.message@)),
    }
}

/// `true` for a record that a row can hold exactly: counts and times that
/// fit a signed 64-bit integer, a URL in the form the url crate writes, and
/// metadata that is JSON.
pub open spec fn fits_a_row(d: DownloadView) -> bool {
    &&& url_parse(d.url) is Ok
    &&& url_parse(d.url)->Ok_0.text == d.url
    &&& json_valid(d.backend_meta)
    &&& d.total_bytes is Some ==> d.total_bytes.unwrap() <= i64::MAX
    &&& d.downloaded_bytes <= i64::MAX
    &&& d.created_at <= i64::MAX
    &&& d.updated_at <= i64::MAX
    &&& d.started_at is Some ==> d.started_at.unwrap() <= i64::MAX
    &&& d.completed_at is Some ==> d.completed_at.unwrap() <= i64::MAX
}

/// Reads a row back as a download record; a column that does not convert
/// (an id that is not a UUID, a URL that does not parse, an unknown backend
/// or state) is reported with its index and description. The row written
/// for a record that fits a row reads back as that record.
pub fn download_from_row(row: &DownloadRow) -> (r: Result<Download, RowError>)
    ensures
        row_result_view(r) == loaded_row(row@),
        forall|d: DownloadView|
            row@ == #[trigger] saved_row(d) && fits_a_row(d) ==> row_result_view(r) == Ok::<
                DownloadView,
                (int, Seq<char>),
            >(d),
{
    let parsed = crate::backend::uuid_parse_str(row.id.as_str());
    proof {
        assert forall|d: DownloadView| row@ == #[trigger] saved_row(d) && fits_a_row(d) implies loaded_row(
            row@,
        ) == Ok::<DownloadView, (int, Seq<char>)>(d) by {
            crate::backend::law_id_text_identifies(d.id.0, d.id.0);
            crate::backend::law_id_text_identifies(parsed->Ok_0, d.id.0);
            law_row_round_trip(d);
        }
    }
    let id = match parsed {
        Ok(v) => DownloadId(v),
        Err(m) => {
            return Err(RowError { column: 0, message: m });
        },
    };
    let url = match Url::parse(row.url.as_str()) {
        Ok(u) => u,
        Err(Error::InvalidUrl(m)) => {
            return Err(RowError { column: 1, message: m });
        },
        Err(_) => {
            return Err(RowError { column: 1, message: String::new() });
        },
    };
    let backend = match BackendKind::parse(row.backend.as_str()) {
        Ok(b) => b,
        Err(e) => {
            proof {
                reveal_strlit("internal error: ");
                reveal_strlit("unknown backend kind: ");
                reveal_strlit("internal error: unknown backend kind: ");
                assert("internal error: "@ + ("unknown backend kind: "@ + row.backend@)
                    =~= "internal error: unknown backend kind: "@ + row.backend@);
            }
            return Err(RowError { column: 3, message: e.message() });
        },
    };
    let state = match DownloadState::parse(row.state.as_str()) {
        Ok(st) => st,
        Err(e) => {
            proof {
                reveal_strlit("internal error: ");
                reveal_strlit("unknown download state: ");
                reveal_strlit("internal error: unknown download state: ");
                assert("internal error: "@ + ("unknown download state: "@ + row.state@)
                    =~= "internal error: unknown download state: "@ + row.state@);
            }
            return Err(RowError { column: 4, message: e.message() });
        },
    };
    let backend_meta = match &row.backend_meta {
        Some(t) => if is_json(t.as_str()) {
            t.clone()
        } else {
            let mut n = String::new();
            push_str(&mut n, "null");
            n
        },
        None => {
            let mut n = String::new();
            push_str(&mut n, "null");
            n
        },
    };
    let mut url_text = String::new();
    push_str(&mut url_text, url.as_str());
    Ok(
        Download {
            id,
            url: url_text,
            destination: row.destination.clone(),
            backend,
            state,
            overwrite: row.overwrite != 0,
            total_bytes: loaded_opt_value(row.total_bytes),
            downloaded_bytes: loaded_value(row.downloaded_bytes),
            created_at: loaded_value(row.created_at),
            updated_at: loaded_value(row.updated_at),
            started_at: loaded_opt_value(row.started_at),
            completed_at: loaded_opt_value(row.completed_at),
            error: copy_opt_text(&row.error),
            backend_meta,
        },
    )
}

/// What is written is what is read back: a record stored as a row reads
/// back as the same record, for every record that fits a row and whose id's
/// text the uuid parser reads back as the id (which `download_from_row`
/// shows of every id, from the parser's reading of the hyphenated form).
pub proof fn law_row_round_trip(d: DownloadView)
    requires
        uuid_parse(uuid_hyphenated(d.id.0)) == Ok::<u128, Seq<char>>(d.id.0),
        fits_a_row(d),
    ensures
        loaded_row(saved_row(d)) == Ok::<DownloadView, (int, Seq<char>)>(d),
{
    crate::backend::law_kind_text_round_trip(d.backend);
    crate::state::law_text_round_trip(d.state, d.state);
    let r = saved_row(d);
    assert(loaded_opt(r.total_bytes) == d.total_bytes);
    assert(loaded_opt(r.started_at) == d.started_at);
    assert(loaded_opt(r.completed_at) == d.completed_at);
    assert((r.overwrite != 0) == d.overwrite);
}

/// The positions, in order, of the schema migrations in `known` whose
/// versions are not among the `applied` ones.
pub open spec fn pending(known: Seq<i64>, applied: Seq<i64>) -> Seq<int>
    decreases known.len(),
{
    if known.len() == 0 {
        seq![]
    } else {
        let rest = pending(known.drop_last(), applied);
        if applied.contains(known.last()) {
            rest
        } else {
            rest.push(known.len() - 1)
        }
    }
}

/// The versions at the given positions of `known`.
pub open spec fn versions_at(known: Seq<i64>, idx: Seq<int>) -> Seq<i64> {
    idx.map_values(|i: int| known[i])
}

/// Which of the `known` schema migrations still have to be applied, given
/// the versions already recorded as `applied`: their positions, in order.
pub fn pending_migrations(known: &Vec<i64>, applied: &Vec<i64>) -> (r: Vec<usize>)
    ensures
        r@.map_values(|i: usize| i as int) == pending(known@, applied@),
{
    let mut out: Vec<usize> = Vec::new();
    let mut i: usize = 0;
    while i < known.len()
        invariant
            i <= known.len(),
            out@.map_values(|j: usize| j as int) == pending(known@.take(i as int), applied@),
        decreases known.len() - i,
    {
        let v = known[i];
        let mut seen = false;
        let mut j: usize = 0;
        while j < applied.len()
            invariant
                j <= applied.len(),
                seen == applied@.take(j as int).contains(v),
            decreases applied.len() - j,
        {
            if applied[j] == v {
                seen = true;
            }
            proof {
                let t = applied@.take(j as int + 1);
                assert(t =~= applied@.take(j as int).push(applied@[j as int]));
                if applied@.take(j as int).contains(v) {
                    let w = choose|w: int| 0 <= w < j && applied@.take(j as int)[w] == v;
                    assert(t[w] == v);
                }
                if t.contains(v) && !(applied@[j as int] == v) {
                    let w = choose|w: int| 0 <= w < t.len() && t[w] == v;
                    assert(applied@.take(j as int)[w] == v);
                }
                if applied@[j as int] == v {
                    assert(t[j as int] == v);
                }
            }
            j += 1;
        }
        assert(applied@.take(applied.len() as int) =~= applied@);
        let ghost before = out@;
        if !seen {
            out.push(i);
            assert(out@.map_values(|j: usize| j as int) =~= before.map_values(|j: usize| j as int).push(i as int));
        }
        assert(known@.take(i as int + 1).drop_last() =~= known@.take(i as int));
        i += 1;
    }
    assert(known@.take(known.len() as int) =~= known@);
    out
}

/// Every position that `pending` gives is a position of `known` whose
/// version is not applied, and every such position is given.
proof fn lemma_pending_members(known: Seq<i64>, applied: Seq<i64>, i: int)
    ensures
        pending(known, applied).contains(i) <==> (0 <= i < known.len() && !applied.contains(known[i])),
    decreases known.len(),
{
    if known.len() > 0 {
        let k = known.drop_last();
        lemma_pending_members(k, applied, i);
        let rest = pending(k, applied);
        if 0 <= i < k.len() {
            assert(known[i] == k[i]);
        }
        if !applied.contains(known.last()) {
            let p = rest.push(known.len() - 1);
            if p.contains(i) && i != known.len() - 1 {
                let w = choose|w: int| 0 <= w < p.len() && p[w] == i;
                assert(rest[w] == i);
            }
            if rest.contains(i) {
                let w = choose|w: int| 0 <= w < rest.len() && rest[w] == i;
                assert(p[w] == i);
            }
            if i == known.len() - 1 {
                assert(p[rest.len() as int] == i);
            }
        }
    }
}

/// Each migration is applied once: after the pending migrations are
/// recorded as applied, none is pending any more.
pub proof fn law_each_migration_applies_once(known: Seq<i64>, applied: Seq<i64>)
    ensures
        pending(known, applied + versions_at(known, pending(known, applied))) == Seq::<int>::empty(),
{
    let p = pending(known, applied);
    let after = applied + versions_at(known, p);
    assert forall|i: int| 0 <= i < known.len() implies after.contains(known[i]) by {
        if applied.contains(known[i]) {
            let w = choose|w: int| 0 <= w < applied.len() && applied[w] == known[i];
            assert(after[w] == known[i]);
        } else {
            lemma_pending_members(known, applied, i);
            let w = choose|w: int| 0 <= w < p.len() && p[w] == i;
            assert(versions_at(known, p)[w] == known[i]);
            assert(after[applied.len() + w] == known[i]);
        }
    }
    let q = pending(known, after);
    if q.len() > 0 {
        lemma_pending_members(known, after, q[0]);
        assert(q.contains(q[0]));
    }
    assert(q =~= Seq::<int>::empty());
}

} // verus!
