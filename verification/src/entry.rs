//! Canonical archive entries and the normalizer that produces them.
//!
//! Every backend record is reduced to one shape before any further
//! processing: a slash-separated path (directories end with a trailing
//! separator), the final segment as the display name, the parent prefix
//! (absent at archive root), a size that is zero for directories, and an
//! optionally formatted UTC modification timestamp.

use vstd::prelude::*;
use crate::paths::{
    ensure_dir_slash, is_metadata_path, lemma_parent_shorter, name_of, parent_of, split_path,
    with_dir_slash,
};
use crate::tree::{wf_item, TreeItem};
use itertools::Itertools;

verus! {

/// Calendar fields of a stored timestamp, as some containers record them.
#[derive(Debug, Clone, Copy, PartialEq, Eq, Structural)]
pub struct DateParts {
    pub year: u16,
    pub month: u8,
    pub day: u8,
    pub hour: u8,
    pub minute: u8,
    pub second: u8,
}

/// A backend modification timestamp: either Unix seconds or calendar fields.
#[derive(Debug, Clone, Copy, PartialEq, Eq, Structural)]
pub enum EntryTime {
    Unix(i64),
    Parts(DateParts),
}

/// One raw record as a backend reports it: the stored path, the backend's
/// own directory flag, the uncompressed size, and the stored timestamp.
#[derive(Debug, Clone)]
pub struct RawEntry {
    pub path: String,
    pub is_dir: bool,
    pub size: u64,
    pub mtime: Option<EntryTime>,
}

/// Mathematical model of a raw record.
#[verifier::ext_equal]
pub struct RawModel {
    pub path: Seq<char>,
    pub is_dir: bool,
    pub size: u64,
    pub mtime: Option<EntryTime>,
}

impl View for RawEntry {
    type V = RawModel;

    open spec fn view(&self) -> RawModel {
        RawModel {
            path: self.path@,
            is_dir: self.is_dir,
            size: self.size,
            mtime: self.mtime,
        }
    }
}

/// One canonical entry of a listing.
#[derive(Debug, Clone, PartialEq)]
pub struct ArchiveEntry {
    pub name: String,
    pub path: String,
    pub parent_path: Option<String>,
    pub size: u64,
    pub is_dir: bool,
    pub modified: Option<String>,
}

/// Mathematical model of a canonical entry.
#[verifier::ext_equal]
pub struct EntryModel {
    pub name: Seq<char>,
    pub path: Seq<char>,
    pub parent_path: Option<Seq<char>>,
    pub size: u64,
    pub is_dir: bool,
    pub modified: Option<Seq<char>>,
}

impl View for ArchiveEntry {
    type V = EntryModel;

    open spec fn view(&self) -> EntryModel {
        EntryModel {
            name: self.name@,
            path: self.path@,
            parent_path: match self.parent_path {
                Option::Some(p) => Some(p@),
                Option::None => None,
            },
            size: self.size,
            is_dir: self.is_dir,
            modified: match self.modified {
                Option::Some(m) => Some(m@),
                Option::None => None,
            },
        }
    }
}

impl TreeItem for ArchiveEntry {
    /// An entry's tree key is its full path.
    open spec fn spec_key(v: EntryModel) -> Seq<char> {
        v.path
    }

    /// An entry's parent key is its parent prefix, or the empty root
    /// sentinel at archive root.
    open spec fn spec_parent_key(v: EntryModel) -> Seq<char> {
        match v.parent_path {
            Option::Some(p) => p,
            Option::None => Seq::empty(),
        }
    }

    fn key(&self) -> (k: String) {
        self.path.clone()
    }

    fn parent_key(&self) -> (k: String) {
        match &self.parent_path {
            Option::Some(p) => p.clone(),
            Option::None => String::new(),
        }
    }

    fn dup(&self) -> (d: Self) {
        let d = ArchiveEntry {
            name: self.name.clone(),
            path: self.path.clone(),
            parent_path: match &self.parent_path {
                Option::Some(p) => Some(p.clone()),
                Option::None => None,
            },
            size: self.size,
            is_dir: self.is_dir,
            modified: match &self.modified {
                Option::Some(m) => Some(m.clone()),
                Option::None => None,
            },
        };
        proof {
            assert(d@ =~= self@);
        }
        d
    }
}

/// The decimal digit character for `d` in 0..=9.
pub open spec fn digit_char(d: int) -> char {
    if d == 0 {
        '0'
    } else if d == 1 {
        '1'
    } else if d == 2 {
        '2'
    } else if d == 3 {
        '3'
    } else if d == 4 {
        '4'
    } else if d == 5 {
        '5'
    } else if d == 6 {
        '6'
    } else if d == 7 {
        '7'
    } else if d == 8 {
        '8'
    } else {
        '9'
    }
}

/// Calendar fields that can be rendered: four-digit year and in-range
/// month, day and time-of-day fields.
pub open spec fn parts_valid(p: DateParts) -> bool {
    &&& p.year <= 9999
    &&& 1 <= p.month <= 12
    &&& 1 <= p.day <= 31
    &&& p.hour <= 23
    &&& p.minute <= 59
    &&& p.second <= 59
}

/// The `YYYY-MM-DD HH:MM:SS` rendering of calendar fields.
pub open spec fn format_parts_spec(p: DateParts) -> Seq<char> {
    seq![
        digit_char(p.year as int / 1000),
        digit_char((p.year as int / 100) % 10),
        digit_char((p.year as int / 10) % 10),
        digit_char(p.year as int % 10),
        '-',
        digit_char(p.month as int / 10),
        digit_char(p.month as int % 10),
        '-',
        digit_char(p.day as int / 10),
        digit_char(p.day as int % 10),
        ' ',
        digit_char(p.hour as int / 10),
        digit_char(p.hour as int % 10),
        ':',
        digit_char(p.minute as int / 10),
        digit_char(p.minute as int % 10),
        ':',
        digit_char(p.second as int / 10),
        digit_char(p.second as int % 10),
    ]
}

/// A one-character string for the decimal digit `d`.
fn digit_str(d: u16) -> (r: &'static str)
    requires
        d <= 9,
    ensures
        r@ == seq![digit_char(d as int)],
{
    proof {
        reveal_strlit("0");
        reveal_strlit("1");
        reveal_strlit("2");
        reveal_strlit("3");
        reveal_strlit("4");
        reveal_strlit("5");
        reveal_strlit("6");
        reveal_strlit("7");
        reveal_strlit("8");
        reveal_strlit("9");
    }
    let r = match d {
        0 => "0",
        1 => "1",
        2 => "2",
        3 => "3",
        4 => "4",
        5 => "5",
        6 => "6",
        7 => "7",
        8 => "8",
        _ => "9",
    };
    proof {
        assert(r@ =~= seq![digit_char(d as int)]);
    }
    r
}

/// Renders valid calendar fields as `YYYY-MM-DD HH:MM:SS`.
pub fn format_parts(p: &DateParts) -> (r: String)
    requires
        parts_valid(*p),
    ensures
        r@ == format_parts_spec(*p),
{
    proof {
        reveal_strlit("-");
        reveal_strlit(":");
        reveal_strlit(" ");
    }
    let mut s = String::new();
    s.append(digit_str(p.year / 1000));
    s.append(digit_str((p.year / 100) % 10));
    s.append(digit_str((p.year / 10) % 10));
    s.append(digit_str(p.year % 10));
    s.append("-");
    s.append(digit_str((p.month / 10) as u16));
    s.append(digit_str((p.month % 10) as u16));
    s.append("-");
    s.append(digit_str((p.day / 10) as u16));
    s.append(digit_str((p.day % 10) as u16));
    s.append(" ");
    s.append(digit_str((p.hour / 10) as u16));
    s.append(digit_str((p.hour % 10) as u16));
    s.append(":");
    s.append(digit_str((p.minute / 10) as u16));
    s.append(digit_str((p.minute % 10) as u16));
    s.append(":");
    s.append(digit_str((p.second / 10) as u16));
    s.append(digit_str((p.second % 10) as u16));
    proof {
        assert(s@ =~= format_parts_spec(*p));
    }
    s
}

/// UTC rendering of a Unix timestamp in `YYYY-MM-DD HH:MM:SS`, or `None`
/// when the timestamp is outside the calendar's representable range. The
/// result depends on the timestamp alone.
pub uninterp spec fn utc_time_repr(secs: int) -> Option<Seq<char>>;

/// View of an optional string.
pub open spec fn opt_str_view(o: Option<String>) -> Option<Seq<char>> {
    match o {
        Option::Some(s) => Some(s@),
        Option::None => None,
    }
}

/// Relies on chrono's `DateTime::from_timestamp` and `format`: rendering a
/// Unix timestamp as a UTC `%Y-%m-%d %H:%M:%S` string is a function of the
/// timestamp alone, absent exactly when the timestamp is out of chrono's
/// calendar range.
#[verifier::external_body]
fn format_unix_time(secs: i64) -> (r: Option<String>)
    ensures
        opt_str_view(r) == utc_time_repr(secs as int),
{
    chrono::DateTime::from_timestamp(secs, 0).map(|t| t.format("%Y-%m-%d %H:%M:%S").to_string())
}

/// The formatted modification timestamp of a record: Unix timestamps go
/// through the UTC calendar rendering, calendar fields are rendered
/// directly; an absent or unrenderable timestamp stays absent.
pub open spec fn modified_spec(mt: Option<EntryTime>) -> Option<Seq<char>> {
    match mt {
        Option::None => None,
        Option::Some(EntryTime::Unix(t)) => utc_time_repr(t as int),
        Option::Some(EntryTime::Parts(p)) => if parts_valid(p) {
            Some(format_parts_spec(p))
        } else {
            None
        },
    }
}

fn modified_of(mt: &Option<EntryTime>) -> (r: Option<String>)
    ensures
        opt_str_view(r) == modified_spec(*mt),
{
    match mt {
        Option::None => None,
        Option::Some(EntryTime::Unix(t)) => format_unix_time(*t),
        Option::Some(EntryTime::Parts(p)) => {
            let valid = p.year <= 9999 && 1 <= p.month && p.month <= 12 && 1 <= p.day && p.day
                <= 31 && p.hour <= 23 && p.minute <= 59 && p.second <= 59;
            if valid {
                Some(format_parts(p))
            } else {
                None
            }
        },
    }
}

/// The canonical entry of one raw record: directories get a trailing
/// separator and size zero; name and parent prefix come from the path.
pub open spec fn normalize_spec(r: RawModel) -> EntryModel {
    let path = if r.is_dir {
        with_dir_slash(r.path)
    } else {
        r.path
    };
    EntryModel {
        name: name_of(path),
        path: path,
        parent_path: parent_of(path),
        size: if r.is_dir {
            0
        } else {
            r.size
        },
        is_dir: r.is_dir,
        modified: modified_spec(r.mtime),
    }
}

/// Normalizes one raw record.
pub fn normalize_entry(r: &RawEntry) -> (e: ArchiveEntry)
    ensures
        e@ == normalize_spec(r@),
{
    let path = if r.is_dir {
        ensure_dir_slash(r.path.as_str())
    } else {
        r.path.clone()
    };
    let (name, parent_path) = split_path(path.as_str());
    let modified = modified_of(&r.mtime);
    let e = ArchiveEntry {
        name,
        path,
        parent_path,
        size: if r.is_dir {
            0
        } else {
            r.size
        },
        is_dir: r.is_dir,
        modified,
    };
    proof {
        assert(e@ =~= normalize_spec(r@));
    }
    e
}

/// A record takes part in listing and extraction: its path is nonempty and
/// does not begin with the platform-metadata marker.
pub open spec fn kept(r: RawModel) -> bool {
    r.path.len() > 0 && !is_metadata_path(r.path)
}

/// The normalized entries of the kept records, in input order.
pub open spec fn normalize_all(rs: Seq<RawModel>) -> Seq<EntryModel> {
    rs.filter(|r: RawModel| kept(r)).map_values(|r: RawModel| normalize_spec(r))
}

/// Filters and normalizes a record list.
pub fn normalize_records(records: &Vec<RawEntry>) -> (out: Vec<ArchiveEntry>)
    ensures
        out@.map_values(|e: ArchiveEntry| e@) == normalize_all(
            records@.map_values(|r: RawEntry| r@),
        ),
{
    let ghost rviews = records@.map_values(|r: RawEntry| r@);
    let mut out: Vec<ArchiveEntry> = Vec::new();
    let n = records.len();
    let mut i: usize = 0;
    while i < n
        invariant
            0 <= i <= n,
            n == records@.len(),
            rviews == records@.map_values(|r: RawEntry| r@),
            out@.map_values(|e: ArchiveEntry| e@) == normalize_all(rviews.subrange(0, i as int)),
        decreases n - i,
    {
        let r = &records[i];
        let keep = r.path.unicode_len() > 0 && !crate::paths::is_metadata(r.path.as_str());
        proof {
            assert(rviews.subrange(0, i + 1).drop_last() =~= rviews.subrange(0, i as int));
            assert(rviews.subrange(0, i + 1).last() == rviews[i as int]);
            assert(rviews[i as int] == records@[i as int]@);
        }
        if keep {
            let e = normalize_entry(r);
            out.push(e);
            proof {
                reveal(Seq::<RawModel>::filter);
                let pre = rviews.subrange(0, i as int).filter(|r: RawModel| kept(r));
                assert(rviews.subrange(0, i + 1).filter(|r: RawModel| kept(r)) == pre.push(
                    rviews[i as int],
                ));
                assert(pre.push(rviews[i as int]).map_values(|r: RawModel| normalize_spec(r))
                    =~= pre.map_values(|r: RawModel| normalize_spec(r)).push(
                    normalize_spec(rviews[i as int]),
                ));
                assert(out@.map_values(|e: ArchiveEntry| e@) =~= normalize_all(
                    rviews.subrange(0, i + 1),
                ));
            }
        } else {
            proof {
                reveal(Seq::<RawModel>::filter);
                assert(rviews.subrange(0, i + 1).filter(|r: RawModel| kept(r)) == rviews.subrange(
                    0,
                    i as int,
                ).filter(|r: RawModel| kept(r)));
            }
        }
        i += 1;
    }
    proof {
        assert(rviews.subrange(0, n as int) =~= rviews);
    }
    out
}

/// Some entry of `s` has path `p`.
pub open spec fn has_path(s: Seq<EntryModel>, p: Seq<char>) -> bool {
    exists|k: int| 0 <= k < s.len() && (#[trigger] s[k]).path == p
}

/// The synthesized directory entry for an implicit ancestor path: named
/// and linked like any directory, with zero size and no timestamp.
pub open spec fn synth_dir(p: Seq<char>) -> EntryModel {
    EntryModel {
        name: name_of(p),
        path: p,
        parent_path: parent_of(p),
        size: 0,
        is_dir: true,
        modified: None,
    }
}

/// Walks one parent chain upward, appending a synthesized directory for
/// every chain link whose path is not yet present.
pub open spec fn add_chain(acc: Seq<EntryModel>, pp: Option<Seq<char>>) -> Seq<EntryModel>
    decreases (match pp {
        Option::Some(p) => p.len() as int + 1,
        Option::None => 0,
    })
        via add_chain_decreases
{
    match pp {
        Option::None => acc,
        Option::Some(p) => {
            let acc1 = if has_path(acc, p) {
                acc
            } else {
                acc.push(synth_dir(p))
            };
            add_chain(acc1, parent_of(p))
        },
    }
}

#[via_fn]
proof fn add_chain_decreases(acc: Seq<EntryModel>, pp: Option<Seq<char>>) {
    match pp {
        Option::None => {},
        Option::Some(p) => {
            lemma_parent_shorter(p);
        },
    }
}

/// Processes `entries[i..]`, walking each entry's parent chain.
pub open spec fn synth_from(acc: Seq<EntryModel>, entries: Seq<EntryModel>, i: int) -> Seq<
    EntryModel,
>
    decreases entries.len() - i,
{
    if i < 0 || i >= entries.len() {
        acc
    } else {
        synth_from(add_chain(acc, entries[i].parent_path), entries, i + 1)
    }
}

/// The entry list with every missing ancestor directory appended: each
/// input entry's parent chain is walked and any absent link synthesized.
pub open spec fn synthesize_spec(entries: Seq<EntryModel>) -> Seq<EntryModel> {
    synth_from(entries, entries, 0)
}

fn has_path_vec(v: &Vec<ArchiveEntry>, p: &String) -> (r: bool)
    ensures
        r == has_path(v@.map_values(|e: ArchiveEntry| e@), p@),
{
    let ghost views = v@.map_values(|e: ArchiveEntry| e@);
    let n = v.len();
    let mut k: usize = 0;
    while k < n
        invariant
            0 <= k <= n,
            n == v@.len(),
            views == v@.map_values(|e: ArchiveEntry| e@),
            forall|t: int| 0 <= t < k ==> (#[trigger] views[t]).path != p@,
        decreases n - k,
    {
        if v[k].path.eq(p) {
            assert(views[k as int].path == p@);
            return true;
        }
        k += 1;
    }
    false
}

fn synth_dir_entry(p: &String) -> (e: ArchiveEntry)
    ensures
        e@ == synth_dir(p@),
{
    let (name, parent_path) = split_path(p.as_str());
    let e = ArchiveEntry {
        name,
        path: p.clone(),
        parent_path,
        size: 0,
        is_dir: true,
        modified: None,
    };
    proof {
        assert(e@ =~= synth_dir(p@));
    }
    e
}

fn parent_component(p: &String) -> (r: Option<String>)
    ensures
        opt_str_view(r) == parent_of(p@),
{
    let (_, parent_path) = split_path(p.as_str());
    parent_path
}

/// Appends a synthesized directory entry for every ancestor path missing
/// from the list, walking each entry's full parent chain in input order.
pub fn synthesize_dirs(entries: Vec<ArchiveEntry>) -> (out: Vec<ArchiveEntry>)
    ensures
        out@.map_values(|e: ArchiveEntry| e@) == synthesize_spec(
            entries@.map_values(|e: ArchiveEntry| e@),
        ),
{
    let ghost evs = entries@.map_values(|e: ArchiveEntry| e@);
    let n = entries.len();
    let mut out = entries;
    let mut j: usize = 0;
    while j < n
        invariant
            0 <= j <= n,
            n <= out@.len(),
            forall|t: int| 0 <= t < n ==> #[trigger] out@[t]@ == evs[t],
            evs.len() == n,
            synth_from(out@.map_values(|e: ArchiveEntry| e@), evs, j as int) == synthesize_spec(
                evs,
            ),
        decreases n - j,
    {
        let mut cur: Option<String> = match &out[j].parent_path {
            Option::Some(p) => Some(p.clone()),
            Option::None => None,
        };
        proof {
            assert(out@[j as int]@ == evs[j as int]);
            assert(opt_str_view(cur) == evs[j as int].parent_path);
        }
        while cur.is_some()
            invariant
                0 <= j < n,
                n <= out@.len(),
                forall|t: int| 0 <= t < n ==> #[trigger] out@[t]@ == evs[t],
                evs.len() == n,
                synth_from(
                    add_chain(out@.map_values(|e: ArchiveEntry| e@), opt_str_view(cur)),
                    evs,
                    j + 1,
                ) == synthesize_spec(evs),
            decreases (match cur {
                Option::Some(p) => p@.len() as int + 1,
                Option::None => 0,
            }),
        {
            let p = cur.unwrap();
            let ghost before = out@.map_values(|e: ArchiveEntry| e@);
            if !has_path_vec(&out, &p) {
                let e = synth_dir_entry(&p);
                out.push(e);
                proof {
                    assert(out@.map_values(|e: ArchiveEntry| e@) =~= before.push(synth_dir(p@)));
                }
            }
            proof {
                lemma_parent_shorter(p@);
            }
            cur = parent_component(&p);
        }
        proof {
            assert(add_chain(out@.map_values(|e: ArchiveEntry| e@), opt_str_view(cur))
                == out@.map_values(|e: ArchiveEntry| e@));
        }
        j += 1;
    }
    proof {
        assert(synth_from(out@.map_values(|e: ArchiveEntry| e@), evs, n as int) == out@.map_values(
            |e: ArchiveEntry| e@,
        ));
    }
    out
}

/// The entry list with later duplicates of any path removed: exactly the
/// first entry per distinct path survives, in order.
pub open spec fn dedup_by_path(s: Seq<EntryModel>) -> Seq<EntryModel>
    decreases s.len(),
{
    if s.len() == 0 {
        s
    } else {
        let rest = dedup_by_path(s.drop_last());
        if exists|k: int| 0 <= k < s.len() - 1 && (#[trigger] s[k]).path == s.last().path {
            rest
        } else {
            rest.push(s.last())
        }
    }
}

/// Relies on itertools' `unique_by` (documented as stable and keeping the
/// first item encountered per key) to deduplicate entries by path.
#[verifier::external_body]
pub(crate) fn unique_by_path(entries: Vec<ArchiveEntry>) -> (r: Vec<ArchiveEntry>)
    ensures
        r@.map_values(|e: ArchiveEntry| e@) == dedup_by_path(
            entries@.map_values(|e: ArchiveEntry| e@),
        ),
{
    entries.into_iter().unique_by(|e| e.path.clone()).collect()
}

/// Deduplication keeps only entries of the input.
pub proof fn lemma_dedup_sub(s: Seq<EntryModel>)
    ensures
        forall|x: EntryModel| #[trigger] dedup_by_path(s).contains(x) ==> s.contains(x),
    decreases s.len(),
{
    if s.len() > 0 {
        lemma_dedup_sub(s.drop_last());
        assert forall|x: EntryModel| #[trigger] dedup_by_path(s).contains(x) implies s.contains(
            x,
        ) by {
            let d = dedup_by_path(s);
            let rest = dedup_by_path(s.drop_last());
            let w = choose|w: int| 0 <= w < d.len() && d[w] == x;
            if exists|k: int| 0 <= k < s.len() - 1 && (#[trigger] s[k]).path == s.last().path {
                assert(rest.contains(x));
            } else {
                if w < rest.len() {
                    assert(rest[w] == x);
                    assert(rest.contains(x));
                } else {
                    assert(x == s.last());
                    assert(s[s.len() - 1] == x);
                }
            }
            if rest.contains(x) {
                let v = choose|v: int| 0 <= v < rest.len() && rest[v] == x;
                assert(s.drop_last().contains(x) ==> s.contains(x)) by {
                    if s.drop_last().contains(x) {
                        let u = choose|u: int|
                            0 <= u < s.drop_last().len() && s.drop_last()[u] == x;
                        assert(s[u] == x);
                    }
                }
            }
        }
    }
}

/// Deduplication keeps the set of paths: a path occurs in the result
/// exactly when it occurs in the input.
pub proof fn lemma_dedup_same_paths(s: Seq<EntryModel>)
    ensures
        forall|p: Seq<char>| has_path(dedup_by_path(s), p) <==> has_path(s, p),
    decreases s.len(),
{
    if s.len() > 0 {
        lemma_dedup_same_paths(s.drop_last());
        let d = dedup_by_path(s);
        let rest = dedup_by_path(s.drop_last());
        assert forall|p: Seq<char>| has_path(d, p) implies has_path(s, p) by {
            let w = choose|w: int| 0 <= w < d.len() && (#[trigger] d[w]).path == p;
            if w < rest.len() && rest[w] == d[w] {
                assert(has_path(rest, p));
                assert(has_path(s.drop_last(), p));
                let u = choose|u: int|
                    0 <= u < s.drop_last().len() && (#[trigger] s.drop_last()[u]).path == p;
                assert(s[u].path == p);
            } else {
                assert(d[w] == s.last());
                assert(s[s.len() - 1].path == p);
            }
        }
        assert forall|p: Seq<char>| has_path(s, p) implies has_path(d, p) by {
            let w = choose|w: int| 0 <= w < s.len() && (#[trigger] s[w]).path == p;
            if w < s.len() - 1 {
                assert(s.drop_last()[w].path == p);
                assert(has_path(s.drop_last(), p));
                assert(has_path(rest, p));
                let u = choose|u: int| 0 <= u < rest.len() && (#[trigger] rest[u]).path == p;
                if exists|k: int| 0 <= k < s.len() - 1 && (#[trigger] s[k]).path == s.last().path {
                    assert(d[u].path == p);
                } else {
                    assert(d[u] == rest[u]);
                    assert(d[u].path == p);
                }
            } else {
                // the last element: either an earlier duplicate of its path
                // exists (and stays), or the element itself is kept
                if exists|k: int| 0 <= k < s.len() - 1 && (#[trigger] s[k]).path == s.last().path {
                    let k = choose|k: int|
                        0 <= k < s.len() - 1 && (#[trigger] s[k]).path == s.last().path;
                    assert(s.drop_last()[k].path == p);
                    assert(has_path(s.drop_last(), p));
                    assert(has_path(rest, p));
                    let u = choose|u: int| 0 <= u < rest.len() && (#[trigger] rest[u]).path == p;
                    assert(d[u].path == p);
                } else {
                    assert(d[d.len() - 1] == s.last());
                    assert(d[d.len() - 1].path == p);
                }
            }
        }
    }
}

/// Deduplicated entries have pairwise distinct paths.
pub proof fn lemma_dedup_distinct(s: Seq<EntryModel>)
    ensures
        forall|i: int, j: int|
            0 <= i < j < dedup_by_path(s).len() ==> (#[trigger] dedup_by_path(s)[i]).path != (
            #[trigger] dedup_by_path(s)[j]).path,
    decreases s.len(),
{
    if s.len() > 0 {
        lemma_dedup_distinct(s.drop_last());
        lemma_dedup_sub(s.drop_last());
        let d = dedup_by_path(s);
        let rest = dedup_by_path(s.drop_last());
        if exists|k: int| 0 <= k < s.len() - 1 && (#[trigger] s[k]).path == s.last().path {
        } else {
            assert forall|i: int, j: int| 0 <= i < j < d.len() implies (#[trigger] d[i]).path != (
            #[trigger] d[j]).path by {
                if j < rest.len() {
                    assert(rest[i] == d[i] && rest[j] == d[j]);
                } else {
                    assert(d[j] == s.last());
                    assert(rest[i] == d[i]);
                    assert(rest.contains(rest[i]));
                    assert(s.drop_last().contains(rest[i]));
                    let u = choose|u: int| 0 <= u < s.len() - 1 && s.drop_last()[u] == rest[i];
                    assert(s[u] == rest[i]);
                    if rest[i].path == s.last().path {
                        assert((#[trigger] s[u]).path == s.last().path);
                        assert(false);
                    }
                }
            }
        }
    }
}

/// A normalized entry of a nonempty path is well formed for the tree
/// builder: its parent key is strictly shorter than its path.
pub proof fn lemma_normalized_wf(r: RawModel)
    requires
        r.path.len() > 0,
    ensures
        wf_item::<ArchiveEntry>(normalize_spec(r)),
        normalize_spec(r).parent_path matches Some(q) ==> q.len() > 0,
{
    let path = if r.is_dir {
        with_dir_slash(r.path)
    } else {
        r.path
    };
    lemma_parent_shorter(path);
}

} // verus!
