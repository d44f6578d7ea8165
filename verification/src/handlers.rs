//! The per-format archive adapters and their shared capability set.
//!
//! An adapter holds the request parameters (archive path, password, and for
//! the tar family a detected format). The unverified backend readers hand
//! it raw records; the adapter turns them into a listing forest or into a
//! per-record extraction plan. Platform-metadata entries are skipped in
//! both directions for every format, and extraction refuses any stored path
//! that could escape the target directory.

use vstd::prelude::*;
use crate::entry::{
    add_chain, dedup_by_path, has_path, kept, lemma_dedup_distinct, lemma_dedup_sub,
    lemma_normalized_wf, normalize_all, normalize_records, normalize_spec, synth_dir, synth_from,
    synthesize_dirs, synthesize_spec, unique_by_path, ArchiveEntry, EntryModel, RawEntry, RawModel,
};
use crate::errors::{ArchiveError, SpecError};
use crate::format::ArchiveFormat;
use crate::paths::{
    is_metadata, is_metadata_path, is_safe_path, is_safe_rel_path, join_under, joined_path,
    lemma_parent_shorter, metadata_marker, parent_of, with_dir_slash,
};
use crate::tree::{
    distinct_keys, flat, forest_dfs, forest_view, lemma_flat_sub, lemma_forest_dfs_is_flat,
    spec_forest, wf_item, wf_items, SpecNode, TreeItem, TreeNode,
};

verus! {

/// The root sentinel key of every listing forest: entries at archive root
/// have no parent prefix and carry the empty parent key.
pub open spec fn root_key() -> Seq<char> {
    Seq::empty()
}

/// Models of a raw record list.
pub open spec fn raw_views(records: Seq<RawEntry>) -> Seq<RawModel> {
    records.map_values(|r: RawEntry| r@)
}

/// A well-formed canonical entry: fit for the tree builder, with a
/// nonempty parent prefix when one is present.
pub open spec fn entry_ok(e: EntryModel) -> bool {
    &&& wf_item::<ArchiveEntry>(e)
    &&& (e.parent_path matches Some(q) ==> q.len() > 0)
}

pub open spec fn entries_ok(s: Seq<EntryModel>) -> bool {
    forall|i: int| 0 <= i < s.len() ==> entry_ok(#[trigger] s[i])
}

/// No entry path begins with the platform-metadata marker, nor does any
/// parent prefix.
pub open spec fn no_metadata(s: Seq<EntryModel>) -> bool {
    forall|i: int|
        0 <= i < s.len() ==> !is_metadata_path((#[trigger] s[i]).path) && (s[i].parent_path
            matches Some(q) ==> !is_metadata_path(q))
}

/// Normalization of kept records yields well-formed, metadata-free entries.
pub proof fn lemma_normalize_all_ok(rs: Seq<RawModel>)
    ensures
        entries_ok(normalize_all(rs)),
        no_metadata(normalize_all(rs)),
{
    let pred = |r: RawModel| kept(r);
    let filtered = rs.filter(pred);
    assert forall|i: int| 0 <= i < normalize_all(rs).len() implies entry_ok(
        #[trigger] normalize_all(rs)[i],
    ) && !is_metadata_path(normalize_all(rs)[i].path) && (normalize_all(rs)[i].parent_path matches
        Some(q) ==> !is_metadata_path(q)) by {
        rs.lemma_filter_pred(pred, i);
        let r = filtered[i];
        assert(normalize_all(rs)[i] == normalize_spec(r));
        lemma_normalized_wf(r);
        let path = if r.is_dir {
            with_dir_slash(r.path)
        } else {
            r.path
        };
        lemma_slash_keeps_nonmetadata(r.path);
        lemma_parent_nonmetadata(path);
    }
}

/// Appending a directory separator cannot introduce the metadata marker.
proof fn lemma_slash_keeps_nonmetadata(p: Seq<char>)
    requires
        !is_metadata_path(p),
    ensures
        !is_metadata_path(with_dir_slash(p)),
{
    let q = with_dir_slash(p);
    if is_metadata_path(q) {
        if p.len() >= metadata_marker().len() {
            assert forall|j: int| 0 <= j < metadata_marker().len() implies p[j]
                == metadata_marker()[j] by {
                assert(q[j] == p[j]);
            }
            assert(is_metadata_path(p));
        } else {
            reveal_strlit("__MACOSX");
            assert(p.len() == metadata_marker().len() - 1);
            assert(q[q.len() - 1] == '/');
            assert(metadata_marker()[metadata_marker().len() - 1] == 'X');
        }
    }
}

/// A parent prefix of a metadata-free path is metadata-free.
proof fn lemma_parent_nonmetadata(p: Seq<char>)
    requires
        !is_metadata_path(p),
    ensures
        parent_of(p) matches Some(q) ==> !is_metadata_path(q),
{
    if parent_of(p) is Some {
        let q = parent_of(p)->Some_0;
        let s = crate::paths::strip_slash(p);
        let k = crate::paths::find_last(s, '/');
        crate::paths::lemma_find_last(s, '/');
        assert(q == s.subrange(0, k + 1));
        lemma_parent_shorter(p);
        if is_metadata_path(q) {
            assert forall|j: int| 0 <= j < metadata_marker().len() implies p[j]
                == metadata_marker()[j] by {
                assert(j < q.len());
                assert(q[j] == s[j]);
                assert(s[j] == p[j]);
            }
            assert(is_metadata_path(p));
        }
    }
}

/// Walking a parent chain preserves well-formedness and metadata-freedom.
proof fn lemma_add_chain_ok(acc: Seq<EntryModel>, pp: Option<Seq<char>>)
    requires
        entries_ok(acc),
        no_metadata(acc),
        pp matches Some(p) ==> p.len() > 0 && !is_metadata_path(p),
    ensures
        entries_ok(add_chain(acc, pp)),
        no_metadata(add_chain(acc, pp)),
        acc.len() <= add_chain(acc, pp).len(),
        forall|i: int| 0 <= i < acc.len() ==> #[trigger] add_chain(acc, pp)[i] == acc[i],
    decreases (match pp {
        Option::Some(p) => p.len() as int + 1,
        Option::None => 0,
    }),
{
    match pp {
        Option::None => {},
        Option::Some(p) => {
            lemma_parent_shorter(p);
            lemma_parent_nonmetadata(p);
            let acc1 = if has_path(acc, p) {
                acc
            } else {
                acc.push(synth_dir(p))
            };
            if !has_path(acc, p) {
                assert(entry_ok(synth_dir(p)));
                assert(entries_ok(acc1)) by {
                    assert forall|i: int| 0 <= i < acc1.len() implies entry_ok(
                        #[trigger] acc1[i],
                    ) by {
                        if i < acc.len() {
                            assert(acc1[i] == acc[i]);
                        }
                    }
                }
                assert(no_metadata(acc1)) by {
                    assert forall|i: int| 0 <= i < acc1.len() implies !is_metadata_path(
                        (#[trigger] acc1[i]).path,
                    ) && (acc1[i].parent_path matches Some(q) ==> !is_metadata_path(q)) by {
                        if i < acc.len() {
                            assert(acc1[i] == acc[i]);
                        }
                    }
                }
            }
            lemma_add_chain_ok(acc1, parent_of(p));
        },
    }
}

/// Synthesis preserves well-formedness and metadata-freedom, and keeps the
/// accumulated prefix.
proof fn lemma_synth_from_ok(acc: Seq<EntryModel>, entries: Seq<EntryModel>, i: int)
    requires
        entries_ok(acc),
        no_metadata(acc),
        entries_ok(entries),
        no_metadata(entries),
    ensures
        entries_ok(synth_from(acc, entries, i)),
        no_metadata(synth_from(acc, entries, i)),
        acc.len() <= synth_from(acc, entries, i).len(),
        forall|k: int| 0 <= k < acc.len() ==> #[trigger] synth_from(acc, entries, i)[k] == acc[k],
    decreases entries.len() - i,
{
    if i < 0 || i >= entries.len() {
    } else {
        lemma_add_chain_ok(acc, entries[i].parent_path);
        lemma_synth_from_ok(add_chain(acc, entries[i].parent_path), entries, i + 1);
    }
}

/// After one chain walk the chain's head is present, and every entry the
/// walk appended has its parent present.
proof fn lemma_add_chain_closure(acc: Seq<EntryModel>, pp: Option<Seq<char>>)
    ensures
        acc.len() <= add_chain(acc, pp).len(),
        forall|i: int| 0 <= i < acc.len() ==> #[trigger] add_chain(acc, pp)[i] == acc[i],
        pp matches Some(p) ==> has_path(add_chain(acc, pp), p),
        forall|i: int|
            acc.len() <= i < add_chain(acc, pp).len() ==> ((#[trigger] add_chain(acc, pp)[
            i]).parent_path matches Some(q) ==> has_path(add_chain(acc, pp), q)),
    decreases (match pp {
        Option::Some(p) => p.len() as int + 1,
        Option::None => 0,
    }),
{
    match pp {
        Option::None => {},
        Option::Some(p) => {
            lemma_parent_shorter(p);
            let acc1 = if has_path(acc, p) {
                acc
            } else {
                acc.push(synth_dir(p))
            };
            let r = add_chain(acc, pp);
            lemma_add_chain_closure(acc1, parent_of(p));
            assert(has_path(acc1, p)) by {
                if !has_path(acc, p) {
                    assert(acc1[acc.len() as int].path == p);
                }
            }
            assert(has_path(r, p)) by {
                let w = choose|w: int| 0 <= w < acc1.len() && (#[trigger] acc1[w]).path == p;
                assert(r[w] == acc1[w]);
            }
            assert forall|i: int|
                acc.len() <= i < r.len() implies ((#[trigger] r[i]).parent_path matches Some(q)
                ==> has_path(r, q)) by {
                if i < acc1.len() {
                    assert(acc1[i] == synth_dir(p));
                    assert(r[i] == acc1[i]);
                    assert(r[i].parent_path == parent_of(p));
                }
            }
        },
    }
}

/// Synthesis closes the listing under parents: afterwards every present
/// parent prefix is some entry's path.
proof fn lemma_synth_from_closure(acc: Seq<EntryModel>, entries: Seq<EntryModel>, i: int)
    requires
        0 <= i,
        entries.len() <= acc.len(),
        forall|k: int| 0 <= k < entries.len() ==> #[trigger] acc[k] == entries[k],
        forall|j: int|
            0 <= j < i && j < entries.len() ==> ((#[trigger] entries[j]).parent_path matches Some(
            q) ==> has_path(acc, q)),
        forall|k: int|
            entries.len() <= k < acc.len() ==> ((#[trigger] acc[k]).parent_path matches Some(q)
                ==> has_path(acc, q)),
    ensures
        acc.len() <= synth_from(acc, entries, i).len(),
        forall|k: int| 0 <= k < acc.len() ==> #[trigger] synth_from(acc, entries, i)[k] == acc[k],
        forall|j: int|
            0 <= j < entries.len() ==> ((#[trigger] entries[j]).parent_path matches Some(q)
                ==> has_path(synth_from(acc, entries, i), q)),
        forall|k: int|
            entries.len() <= k < synth_from(acc, entries, i).len() ==> ((#[trigger] synth_from(
                acc,
                entries,
                i,
            )[k]).parent_path matches Some(q) ==> has_path(synth_from(acc, entries, i), q)),
    decreases entries.len() - i,
{
    let r = synth_from(acc, entries, i);
    if i >= entries.len() {
        assert forall|j: int|
            0 <= j < entries.len() implies ((#[trigger] entries[j]).parent_path matches Some(q)
            ==> has_path(r, q)) by {
            assert(j < i);
        }
    } else {
        let acc1 = add_chain(acc, entries[i].parent_path);
        lemma_add_chain_closure(acc, entries[i].parent_path);
        assert forall|q: Seq<char>| has_path(acc, q) implies has_path(acc1, q) by {
            let w = choose|w: int| 0 <= w < acc.len() && (#[trigger] acc[w]).path == q;
            assert(acc1[w] == acc[w]);
        }
        lemma_synth_from_closure(acc1, entries, i + 1);
    }
}

/// In a 7z listing every present parent prefix is itself some entry's path:
/// synthesis inserts every missing ancestor, and deduplication keeps the
/// path set.
pub proof fn lemma_sevenz_parents_present(rs: Seq<RawModel>)
    ensures
        forall|i: int|
            0 <= i < sevenz_entries(rs).len() ==> ((#[trigger] sevenz_entries(rs)[i]).parent_path
                matches Some(q) ==> has_path(sevenz_entries(rs), q)),
{
    let base = normalize_all(rs);
    lemma_synth_from_closure(base, base, 0);
    let synth = synthesize_spec(base);
    crate::entry::lemma_dedup_same_paths(synth);
    lemma_dedup_sub(synth);
    let dd = sevenz_entries(rs);
    assert forall|i: int|
        0 <= i < dd.len() implies ((#[trigger] dd[i]).parent_path matches Some(q) ==> has_path(
        dd,
        q,
    )) by {
        assert(dd.contains(dd[i]));
        assert(synth.contains(dd[i]));
        let k = choose|k: int| 0 <= k < synth.len() && synth[k] == dd[i];
        if dd[i].parent_path is Some {
            let q = dd[i].parent_path->Some_0;
            assert(has_path(synth, q)) by {
                if k < base.len() {
                    assert(synth[k] == base[k]);
                    assert(base[k].parent_path matches Some(q2) ==> has_path(synth, q2));
                } else {
                    assert(synth[k].parent_path matches Some(q2) ==> has_path(synth, q2));
                }
            }
            assert(has_path(dd, q));
        }
    }
}

/// The fully synthesized, deduplicated entry list of a record list is well
/// formed, metadata-free, and has pairwise distinct paths.
pub proof fn lemma_sevenz_entries_ok(rs: Seq<RawModel>)
    ensures
        entries_ok(sevenz_entries(rs)),
        no_metadata(sevenz_entries(rs)),
        distinct_keys::<ArchiveEntry>(sevenz_entries(rs)),
{
    lemma_normalize_all_ok(rs);
    let base = normalize_all(rs);
    lemma_synth_from_ok(base, base, 0);
    let synth = synthesize_spec(base);
    lemma_dedup_sub(synth);
    lemma_dedup_distinct(synth);
    let dd = dedup_by_path(synth);
    assert forall|i: int| 0 <= i < dd.len() implies entry_ok(#[trigger] dd[i]) && !is_metadata_path(
        dd[i].path,
    ) && (dd[i].parent_path matches Some(q) ==> !is_metadata_path(q)) by {
        assert(dd.contains(dd[i]));
        assert(synth.contains(dd[i]));
        let k = choose|k: int| 0 <= k < synth.len() && synth[k] == dd[i];
        assert(entry_ok(synth[k]));
    }
}

/// The canonical entry list of formats with explicit directory records.
pub open spec fn plain_entries(rs: Seq<RawModel>) -> Seq<EntryModel> {
    normalize_all(rs)
}

/// The canonical entry list of the 7z format: missing ancestor directories
/// are synthesized, then exactly one entry per path survives.
pub open spec fn sevenz_entries(rs: Seq<RawModel>) -> Seq<EntryModel> {
    dedup_by_path(synthesize_spec(normalize_all(rs)))
}

/// The listing forest of formats with explicit directory records.
pub open spec fn plain_forest(rs: Seq<RawModel>) -> Seq<SpecNode<EntryModel>> {
    spec_forest::<ArchiveEntry>(plain_entries(rs), 0, root_key())
}

/// The listing forest of the 7z format.
pub open spec fn sevenz_forest(rs: Seq<RawModel>) -> Seq<SpecNode<EntryModel>> {
    spec_forest::<ArchiveEntry>(sevenz_entries(rs), 0, root_key())
}

/// The 7z listing pipeline meets the tree builder's bijection law: its
/// entry list is well formed with pairwise distinct keys, so the listing's
/// depth-first traversal lists exactly the reachable entries, each once.
pub proof fn lemma_sevenz_listing_bijection(rs: Seq<RawModel>)
    ensures
        forest_dfs(sevenz_forest(rs)) == flat::<ArchiveEntry>(sevenz_entries(rs), 0, root_key()),
        forall|x: EntryModel|
            #[trigger] flat::<ArchiveEntry>(sevenz_entries(rs), 0, root_key()).contains(x)
                <==> sevenz_entries(rs).contains(x) && crate::tree::resolves::<ArchiveEntry>(
                sevenz_entries(rs),
                x,
                root_key(),
            ),
        flat::<ArchiveEntry>(sevenz_entries(rs), 0, root_key()).no_duplicates(),
{
    lemma_sevenz_entries_ok(rs);
    let entries = sevenz_entries(rs);
    assert(wf_items::<ArchiveEntry>(entries)) by {
        assert forall|i: int| 0 <= i < entries.len() implies wf_item::<ArchiveEntry>(
            #[trigger] entries[i],
        ) by {
            assert(entry_ok(entries[i]));
        }
    }
    lemma_forest_dfs_is_flat::<ArchiveEntry>(entries, 0, root_key());
    crate::tree::lemma_forest_bijection::<ArchiveEntry>(entries, root_key());
}

/// Entries whose path begins with the platform-metadata marker never appear
/// in a listing forest, for either pipeline.
pub proof fn lemma_listing_skips_metadata(rs: Seq<RawModel>)
    ensures
        forall|x: EntryModel|
            #[trigger] forest_dfs(plain_forest(rs)).contains(x) ==> !is_metadata_path(x.path),
        forall|x: EntryModel|
            #[trigger] forest_dfs(sevenz_forest(rs)).contains(x) ==> !is_metadata_path(x.path),
{
    lemma_normalize_all_ok(rs);
    lemma_sevenz_entries_ok(rs);
    assert(wf_items::<ArchiveEntry>(plain_entries(rs))) by {
        assert forall|i: int| 0 <= i < plain_entries(rs).len() implies wf_item::<ArchiveEntry>(
            #[trigger] plain_entries(rs)[i],
        ) by {
            assert(entry_ok(plain_entries(rs)[i]));
        }
    }
    assert(wf_items::<ArchiveEntry>(sevenz_entries(rs))) by {
        assert forall|i: int| 0 <= i < sevenz_entries(rs).len() implies wf_item::<ArchiveEntry>(
            #[trigger] sevenz_entries(rs)[i],
        ) by {
            assert(entry_ok(sevenz_entries(rs)[i]));
        }
    }
    lemma_forest_dfs_is_flat::<ArchiveEntry>(plain_entries(rs), 0, root_key());
    lemma_forest_dfs_is_flat::<ArchiveEntry>(sevenz_entries(rs), 0, root_key());
    lemma_flat_sub::<ArchiveEntry>(plain_entries(rs), 0, root_key());
    lemma_flat_sub::<ArchiveEntry>(sevenz_entries(rs), 0, root_key());
    assert forall|x: EntryModel| #[trigger] forest_dfs(plain_forest(rs)).contains(
        x,
    ) implies !is_metadata_path(x.path) by {
        assert(plain_entries(rs).contains(x));
        let k = choose|k: int| 0 <= k < plain_entries(rs).len() && plain_entries(rs)[k] == x;
    }
    assert forall|x: EntryModel| #[trigger] forest_dfs(sevenz_forest(rs)).contains(
        x,
    ) implies !is_metadata_path(x.path) by {
        assert(sevenz_entries(rs).contains(x));
        let k = choose|k: int| 0 <= k < sevenz_entries(rs).len() && sevenz_entries(rs)[k] == x;
    }
}

/// Assembles the forest of formats with explicit directory records.
fn assemble_plain(records: &Vec<RawEntry>) -> (r: Vec<TreeNode<ArchiveEntry>>)
    ensures
        forest_view(r@) == plain_forest(raw_views(records@)),
{
    let entries = normalize_records(records);
    proof {
        lemma_normalize_all_ok(raw_views(records@));
        let evs = entries@.map_values(|e: ArchiveEntry| e@);
        assert(wf_items::<ArchiveEntry>(evs)) by {
            assert forall|i: int| 0 <= i < evs.len() implies wf_item::<ArchiveEntry>(
                #[trigger] evs[i],
            ) by {
                assert(entry_ok(normalize_all(raw_views(records@))[i]));
            }
        }
    }
    let out = TreeNode::build_tree(entries, String::new());
    out
}

/// Assembles the 7z forest: directory synthesis, then deduplication by
/// path, then tree assembly.
fn assemble_sevenz(records: &Vec<RawEntry>) -> (r: Vec<TreeNode<ArchiveEntry>>)
    ensures
        forest_view(r@) == sevenz_forest(raw_views(records@)),
{
    let entries = normalize_records(records);
    let entries = synthesize_dirs(entries);
    let entries = unique_by_path(entries);
    proof {
        lemma_sevenz_entries_ok(raw_views(records@));
        let evs = entries@.map_values(|e: ArchiveEntry| e@);
        assert(evs == sevenz_entries(raw_views(records@)));
        assert(wf_items::<ArchiveEntry>(evs)) by {
            assert forall|i: int| 0 <= i < evs.len() implies wf_item::<ArchiveEntry>(
                #[trigger] evs[i],
            ) by {
                assert(entry_ok(sevenz_entries(raw_views(records@))[i]));
            }
        }
    }
    let out = TreeNode::build_tree(entries, String::new());
    out
}

/// One step of an extraction plan.
#[derive(Debug, Clone, PartialEq, Eq)]
pub enum ExtractAction {
    /// The record is skipped: platform metadata, an empty path, or a
    /// directory of a backend that materializes directories implicitly.
    Skip,
    /// Create this directory and its ancestors.
    MkDir(String),
    /// Write this record's contents to this file path.
    WriteFile(String),
}

/// Mathematical model of one plan step.
#[verifier::ext_equal]
pub enum SpecAction {
    Skip,
    MkDir(Seq<char>),
    WriteFile(Seq<char>),
}

impl View for ExtractAction {
    type V = SpecAction;

    open spec fn view(&self) -> SpecAction {
        match self {
            ExtractAction::Skip => SpecAction::Skip,
            ExtractAction::MkDir(p) => SpecAction::MkDir(p@),
            ExtractAction::WriteFile(p) => SpecAction::WriteFile(p@),
        }
    }
}

/// A record that extraction can handle: either it is skipped outright, or
/// its stored path is safe to materialize.
pub open spec fn record_safe(r: RawModel) -> bool {
    !kept(r) || is_safe_rel_path(r.path)
}

/// The plan step for one kept, safe record.
pub open spec fn spec_action(r: RawModel, target: Seq<char>, mkdir_dirs: bool) -> SpecAction {
    if !kept(r) {
        SpecAction::Skip
    } else if r.is_dir {
        if mkdir_dirs {
            SpecAction::MkDir(joined_path(target, r.path))
        } else {
            SpecAction::Skip
        }
    } else {
        SpecAction::WriteFile(joined_path(target, r.path))
    }
}

/// The error extraction returns for a traversal-unsafe stored path.
pub open spec fn unsafe_path_error() -> SpecError {
    SpecError::UnsupportedOrCorruptArchive("entry path escapes the target directory"@)
}

/// The whole extraction plan: one step per record when every record is
/// safe, the rejection error otherwise.
pub open spec fn spec_actions(rs: Seq<RawModel>, target: Seq<char>, mkdir_dirs: bool) -> Result<
    Seq<SpecAction>,
    SpecError,
> {
    if forall|i: int| 0 <= i < rs.len() ==> record_safe(#[trigger] rs[i]) {
        Ok(Seq::new(rs.len(), |i: int| spec_action(rs[i], target, mkdir_dirs)))
    } else {
        Err(unsafe_path_error())
    }
}

/// Plans extraction record by record: metadata entries are skipped, unsafe
/// paths reject the whole plan, everything else is materialized under the
/// target directory.
fn plan_actions(records: &Vec<RawEntry>, target_dir: &str, mkdir_dirs: bool) -> (r: Result<
    Vec<ExtractAction>,
    ArchiveError,
>)
    ensures
        match r {
            Ok(v) => spec_actions(raw_views(records@), target_dir@, mkdir_dirs) matches Ok(sa)
                && v@.map_values(|a: ExtractAction| a@) == sa,
            Err(e) => spec_actions(raw_views(records@), target_dir@, mkdir_dirs) matches Err(se)
                && e@ == se,
        },
{
    let ghost rviews = raw_views(records@);
    let mut out: Vec<ExtractAction> = Vec::new();
    let n = records.len();
    let mut i: usize = 0;
    while i < n
        invariant
            0 <= i <= n,
            n == records@.len(),
            rviews == raw_views(records@),
            out@.len() == i,
            forall|t: int| 0 <= t < i ==> record_safe(#[trigger] rviews[t]),
            forall|t: int|
                0 <= t < i ==> (#[trigger] out@[t])@ == spec_action(
                    rviews[t],
                    target_dir@,
                    mkdir_dirs,
                ),
        decreases n - i,
    {
        let rec = &records[i];
        proof {
            assert(rviews[i as int] == records@[i as int]@);
        }
        let keep = rec.path.unicode_len() > 0 && !is_metadata(rec.path.as_str());
        if !keep {
            out.push(ExtractAction::Skip);
        } else if !is_safe_path(rec.path.as_str()) {
            proof {
                assert(!record_safe(rviews[i as int]));
            }
            return Err(
                ArchiveError::UnsupportedOrCorruptArchive(
                    String::from_str("entry path escapes the target directory"),
                ),
            );
        } else if rec.is_dir {
            if mkdir_dirs {
                out.push(ExtractAction::MkDir(join_under(target_dir, rec.path.as_str())));
            } else {
                out.push(ExtractAction::Skip);
            }
        } else {
            out.push(ExtractAction::WriteFile(join_under(target_dir, rec.path.as_str())));
        }
        i += 1;
    }
    proof {
        assert(out@.map_values(|a: ExtractAction| a@) =~= Seq::new(
            rviews.len(),
            |t: int| spec_action(rviews[t], target_dir@, mkdir_dirs),
        ));
    }
    Ok(out)
}

/// An extraction plan only ever writes under the target directory: every
/// produced path is the join of the target with a safe relative stored
/// path.
pub proof fn lemma_extract_stays_under_target(
    rs: Seq<RawModel>,
    target: Seq<char>,
    mkdir_dirs: bool,
)
    ensures
        spec_actions(rs, target, mkdir_dirs) matches Ok(sa) ==> forall|i: int|
            0 <= i < sa.len() ==> match #[trigger] sa[i] {
                SpecAction::Skip => true,
                SpecAction::MkDir(p) => exists|j: int|
                    0 <= j < rs.len() && is_safe_rel_path((#[trigger] rs[j]).path) && p
                        == joined_path(target, rs[j].path),
                SpecAction::WriteFile(p) => exists|j: int|
                    0 <= j < rs.len() && is_safe_rel_path((#[trigger] rs[j]).path) && p
                        == joined_path(target, rs[j].path),
            },
{
    if spec_actions(rs, target, mkdir_dirs) is Ok {
        let sa = spec_actions(rs, target, mkdir_dirs)->Ok_0;
        assert forall|i: int| 0 <= i < sa.len() implies match #[trigger] sa[i] {
            SpecAction::Skip => true,
            SpecAction::MkDir(p) => exists|j: int|
                0 <= j < rs.len() && is_safe_rel_path((#[trigger] rs[j]).path) && p == joined_path(
                    target,
                    rs[j].path,
                ),
            SpecAction::WriteFile(p) => exists|j: int|
                0 <= j < rs.len() && is_safe_rel_path((#[trigger] rs[j]).path) && p == joined_path(
                    target,
                    rs[j].path,
                ),
        } by {
            assert(sa[i] == spec_action(rs[i], target, mkdir_dirs));
            assert(record_safe(rs[i]));
        }
    }
}

/// Every record whose path begins with the platform-metadata marker is
/// skipped by every extraction plan.
pub proof fn lemma_extract_skips_metadata(rs: Seq<RawModel>, target: Seq<char>, mkdir_dirs: bool)
    ensures
        spec_actions(rs, target, mkdir_dirs) matches Ok(sa) ==> forall|i: int|
            0 <= i < rs.len() && is_metadata_path((#[trigger] rs[i]).path) ==> sa[i]
                == SpecAction::Skip,
{
}

/// The shared capability set of every archive adapter: list the records as
/// a forest of canonical entries, or plan their extraction under a target
/// directory.
pub trait ArchiveHandler {
    /// The model forest this adapter lists from the given records.
    spec fn spec_list(&self, rs: Seq<RawModel>) -> Result<Seq<SpecNode<EntryModel>>, SpecError>;

    /// The model plan this adapter produces for extraction.
    spec fn spec_extract(&self, rs: Seq<RawModel>, target: Seq<char>) -> Result<
        Seq<SpecAction>,
        SpecError,
    >;

    /// Lists the records as a forest of canonical entries.
    fn list_files(&self, records: &Vec<RawEntry>) -> (r: Result<
        Vec<TreeNode<ArchiveEntry>>,
        ArchiveError,
    >)
        ensures
            match r {
                Ok(f) => self.spec_list(raw_views(records@)) matches Ok(sf) && forest_view(f@)
                    == sf,
                Err(e) => self.spec_list(raw_views(records@)) matches Err(se) && e@ == se,
            },
    ;

    /// Plans the extraction of the records under `target_dir`.
    fn extract(&self, records: &Vec<RawEntry>, target_dir: &str) -> (r: Result<
        Vec<ExtractAction>,
        ArchiveError,
    >)
        ensures
            match r {
                Ok(v) => self.spec_extract(raw_views(records@), target_dir@) matches Ok(sa)
                    && v@.map_values(|a: ExtractAction| a@) == sa,
                Err(e) => self.spec_extract(raw_views(records@), target_dir@) matches Err(se) && e@
                    == se,
            },
    ;
}

/// Adapter for zip archives: per-entry lazy decryption, explicit directory
/// records, directories materialized on extraction.
pub struct ZipHandler {
    pub archive_path: String,
    pub password: String,
}

/// Adapter for the tar family: the raw stream is wrapped by the codec that
/// the detected format selects.
pub struct TarHandler {
    pub archive_path: String,
    pub password: String,
    pub archive_format: ArchiveFormat,
}

/// Adapter for 7z archives: directory records are implicit and synthesized
/// before tree assembly.
pub struct SevenZipHandler {
    pub archive_path: String,
    pub password: String,
}

/// Adapter for rar archives: sequential header iteration, directories
/// skipped on extraction.
pub struct RarHandler {
    pub archive_path: String,
    pub password: String,
}

impl ArchiveHandler for ZipHandler {
    open spec fn spec_list(&self, rs: Seq<RawModel>) -> Result<Seq<SpecNode<EntryModel>>, SpecError>
    {
        Ok(plain_forest(rs))
    }

    open spec fn spec_extract(&self, rs: Seq<RawModel>, target: Seq<char>) -> Result<
        Seq<SpecAction>,
        SpecError,
    > {
        spec_actions(rs, target, true)
    }

    fn list_files(&self, records: &Vec<RawEntry>) -> (r: Result<
        Vec<TreeNode<ArchiveEntry>>,
        ArchiveError,
    >) {
        Ok(assemble_plain(records))
    }

    fn extract(&self, records: &Vec<RawEntry>, target_dir: &str) -> (r: Result<
        Vec<ExtractAction>,
        ArchiveError,
    >) {
        plan_actions(records, target_dir, true)
    }
}

/// The decompression codec a tar-family stream is read through.
#[derive(Debug, Clone, Copy, PartialEq, Eq, Structural)]
pub enum TarCodec {
    Plain,
    Gzip,
    Bzip2,
    Xz,
}

/// The formats the tar adapter can read.
pub open spec fn tar_supported(f: ArchiveFormat) -> bool {
    ||| f == ArchiveFormat::Tar
    ||| f == ArchiveFormat::TarGz
    ||| f == ArchiveFormat::TarBz2
    ||| f == ArchiveFormat::TarXz
}

/// The error every tar operation returns on a non-tar format.
pub open spec fn unsupported_format_error() -> SpecError {
    SpecError::UnsupportedOrCorruptArchive("unsupported format"@)
}

impl TarHandler {
    /// The codec the detected format selects, or the unsupported-format
    /// error for anything outside the tar family.
    pub fn codec(&self) -> (r: Result<TarCodec, ArchiveError>)
        ensures
            match r {
                Ok(c) => tar_supported(self.archive_format) && c == (match self.archive_format {
                    ArchiveFormat::TarGz => TarCodec::Gzip,
                    ArchiveFormat::TarXz => TarCodec::Xz,
                    ArchiveFormat::TarBz2 => TarCodec::Bzip2,
                    _ => TarCodec::Plain,
                }),
                Err(e) => !tar_supported(self.archive_format) && e@ == unsupported_format_error(),
            },
    {
        match self.archive_format {
            ArchiveFormat::TarGz => Ok(TarCodec::Gzip),
            ArchiveFormat::TarXz => Ok(TarCodec::Xz),
            ArchiveFormat::TarBz2 => Ok(TarCodec::Bzip2),
            ArchiveFormat::Tar => Ok(TarCodec::Plain),
            _ => Err(
                ArchiveError::UnsupportedOrCorruptArchive(String::from_str("unsupported format")),
            ),
        }
    }
}

impl ArchiveHandler for TarHandler {
    open spec fn spec_list(&self, rs: Seq<RawModel>) -> Result<Seq<SpecNode<EntryModel>>, SpecError>
    {
        if tar_supported(self.archive_format) {
            Ok(plain_forest(rs))
        } else {
            Err(unsupported_format_error())
        }
    }

    open spec fn spec_extract(&self, rs: Seq<RawModel>, target: Seq<char>) -> Result<
        Seq<SpecAction>,
        SpecError,
    > {
        if tar_supported(self.archive_format) {
            spec_actions(rs, target, true)
        } else {
            Err(unsupported_format_error())
        }
    }

    fn list_files(&self, records: &Vec<RawEntry>) -> (r: Result<
        Vec<TreeNode<ArchiveEntry>>,
        ArchiveError,
    >) {
        match self.codec() {
            Ok(_) => Ok(assemble_plain(records)),
            Err(e) => Err(e),
        }
    }

    fn extract(&self, records: &Vec<RawEntry>, target_dir: &str) -> (r: Result<
        Vec<ExtractAction>,
        ArchiveError,
    >) {
        match self.codec() {
            Ok(_) => plan_actions(records, target_dir, true),
            Err(e) => Err(e),
        }
    }
}

impl ArchiveHandler for SevenZipHandler {
    open spec fn spec_list(&self, rs: Seq<RawModel>) -> Result<Seq<SpecNode<EntryModel>>, SpecError>
    {
        Ok(sevenz_forest(rs))
    }

    open spec fn spec_extract(&self, rs: Seq<RawModel>, target: Seq<char>) -> Result<
        Seq<SpecAction>,
        SpecError,
    > {
        spec_actions(rs, target, true)
    }

    fn list_files(&self, records: &Vec<RawEntry>) -> (r: Result<
        Vec<TreeNode<ArchiveEntry>>,
        ArchiveError,
    >) {
        Ok(assemble_sevenz(records))
    }

    fn extract(&self, records: &Vec<RawEntry>, target_dir: &str) -> (r: Result<
        Vec<ExtractAction>,
        ArchiveError,
    >) {
        plan_actions(records, target_dir, true)
    }
}

impl ArchiveHandler for RarHandler {
    open spec fn spec_list(&self, rs: Seq<RawModel>) -> Result<Seq<SpecNode<EntryModel>>, SpecError>
    {
        Ok(plain_forest(rs))
    }

    open spec fn spec_extract(&self, rs: Seq<RawModel>, target: Seq<char>) -> Result<
        Seq<SpecAction>,
        SpecError,
    > {
        spec_actions(rs, target, false)
    }

    fn list_files(&self, records: &Vec<RawEntry>) -> (r: Result<
        Vec<TreeNode<ArchiveEntry>>,
        ArchiveError,
    >) {
        Ok(assemble_plain(records))
    }

    fn extract(&self, records: &Vec<RawEntry>, target_dir: &str) -> (r: Result<
        Vec<ExtractAction>,
        ArchiveError,
    >) {
        plan_actions(records, target_dir, false)
    }
}

/// One adapter of any format.
pub enum Handler {
    Zip(ZipHandler),
    Tar(TarHandler),
    SevenZip(SevenZipHandler),
    Rar(RarHandler),
}

impl ArchiveHandler for Handler {
    open spec fn spec_list(&self, rs: Seq<RawModel>) -> Result<Seq<SpecNode<EntryModel>>, SpecError>
    {
        match self {
            Handler::Zip(h) => h.spec_list(rs),
            Handler::Tar(h) => h.spec_list(rs),
            Handler::SevenZip(h) => h.spec_list(rs),
            Handler::Rar(h) => h.spec_list(rs),
        }
    }

    open spec fn spec_extract(&self, rs: Seq<RawModel>, target: Seq<char>) -> Result<
        Seq<SpecAction>,
        SpecError,
    > {
        match self {
            Handler::Zip(h) => h.spec_extract(rs, target),
            Handler::Tar(h) => h.spec_extract(rs, target),
            Handler::SevenZip(h) => h.spec_extract(rs, target),
            Handler::Rar(h) => h.spec_extract(rs, target),
        }
    }

    fn list_files(&self, records: &Vec<RawEntry>) -> (r: Result<
        Vec<TreeNode<ArchiveEntry>>,
        ArchiveError,
    >) {
        match self {
            Handler::Zip(h) => h.list_files(records),
            Handler::Tar(h) => h.list_files(records),
            Handler::SevenZip(h) => h.list_files(records),
            Handler::Rar(h) => h.list_files(records),
        }
    }

    fn extract(&self, records: &Vec<RawEntry>, target_dir: &str) -> (r: Result<
        Vec<ExtractAction>,
        ArchiveError,
    >) {
        match self {
            Handler::Zip(h) => h.extract(records, target_dir),
            Handler::Tar(h) => h.extract(records, target_dir),
            Handler::SevenZip(h) => h.extract(records, target_dir),
            Handler::Rar(h) => h.extract(records, target_dir),
        }
    }
}

/// Maps a detected format to its adapter; an unknown format falls back to
/// the zip adapter.
pub fn create_handler(path: &str, format: ArchiveFormat, password: String) -> (h: Handler)
    ensures
        (format == ArchiveFormat::Zip || format == ArchiveFormat::Unknown) ==> (h matches
            Handler::Zip(z) && z.archive_path@ == path@ && z.password@ == password@),
        (format == ArchiveFormat::Tar || format == ArchiveFormat::TarXz || format
            == ArchiveFormat::TarGz || format == ArchiveFormat::TarBz2 || format
            == ArchiveFormat::Gz || format == ArchiveFormat::Bz2) ==> (h matches Handler::Tar(t)
            && t.archive_path@ == path@ && t.password@ == password@ && t.archive_format == format),
        format == ArchiveFormat::SevenZip ==> (h matches Handler::SevenZip(s) && s.archive_path@
            == path@ && s.password@ == password@),
        format == ArchiveFormat::Rar ==> (h matches Handler::Rar(r2) && r2.archive_path@ == path@
            && r2.password@ == password@),
{
    match format {
        ArchiveFormat::Zip => Handler::Zip(
            ZipHandler { archive_path: String::from_str(path), password },
        ),
        ArchiveFormat::Tar | ArchiveFormat::TarXz | ArchiveFormat::TarGz | ArchiveFormat::TarBz2
            | ArchiveFormat::Gz | ArchiveFormat::Bz2 => Handler::Tar(
            TarHandler {
                archive_path: String::from_str(path),
                password,
                archive_format: format,
            },
        ),
        ArchiveFormat::SevenZip => Handler::SevenZip(
            SevenZipHandler { archive_path: String::from_str(path), password },
        ),
        ArchiveFormat::Rar => Handler::Rar(
            RarHandler { archive_path: String::from_str(path), password },
        ),
        ArchiveFormat::Unknown => Handler::Zip(
            ZipHandler { archive_path: String::from_str(path), password },
        ),
    }
}

} // verus!
