//! The directory snapshot walker and the snapshot plan.
//!
//! The walker traverses the source root depth-first, pruning excluded
//! directory subtrees during descent; an entry that vanishes mid-walk or has
//! a name the platform cannot represent is reported as unreadable rather
//! than aborting the walk. The plan then keeps exactly the included entries:
//! readable, with a non-empty relative path, not an excluded directory, not
//! an excluded file.

use vstd::prelude::*;

use crate::filter::{
    excluded_dir_name, excluded_file_name, is_excluded_dir_name, is_excluded_file_name,
    should_descend,
};

verus! {

/// One filesystem entry found during traversal: its path relative to the
/// source root (forward-slash separated), its own name (the path's last
/// component), and whether it is a directory.
pub struct FsEntry {
    pub rel_path: String,
    pub name: String,
    pub is_dir: bool,
}

/// The mathematical shape of an entry.
pub ghost struct FsEntryModel {
    pub rel_path: Seq<char>,
    pub name: Seq<char>,
    pub is_dir: bool,
}

impl View for FsEntry {
    type V = FsEntryModel;

    open spec fn view(&self) -> FsEntryModel {
        FsEntryModel { rel_path: self.rel_path@, name: self.name@, is_dir: self.is_dir }
    }
}

impl DeepView for FsEntry {
    type V = FsEntryModel;

    open spec fn deep_view(&self) -> FsEntryModel {
        self@
    }
}

impl Clone for FsEntry {
    fn clone(&self) -> (r: FsEntry)
        ensures
            r@ == self@,
    {
        FsEntry { rel_path: self.rel_path.clone(), name: self.name.clone(), is_dir: self.is_dir }
    }
}

/// The characters `p[i..j]` form one `/`-separated component of `p`.
pub open spec fn is_component_at(p: Seq<char>, i: int, j: int) -> bool {
    &&& 0 <= i <= j <= p.len()
    &&& (i == 0 || p[i - 1] == '/')
    &&& (j == p.len() || p[j] == '/')
    &&& forall|k: int| i <= k < j ==> p[k] != '/'
}

/// Some directory component of `p` has an excluded name: a non-final
/// component always names a directory, and the final one does when the entry
/// itself is a directory.
pub open spec fn has_excluded_dir_component(p: Seq<char>, is_dir: bool) -> bool {
    exists|i: int, j: int|
        is_component_at(p, i, j) && (j < p.len() || is_dir) && excluded_dir_name(p.subrange(i, j))
}

/// `n` is the last `/`-separated component of `p`.
pub open spec fn is_last_component(p: Seq<char>, n: Seq<char>) -> bool {
    exists|i: int| is_component_at(p, i, p.len() as int) && n == p.subrange(i, p.len() as int)
}

/// What the walker promises of every entry it reports readable.
pub open spec fn walked_entry_ok(e: FsEntryModel) -> bool {
    &&& !has_excluded_dir_component(e.rel_path, e.is_dir)
    &&& (e.rel_path.len() > 0 ==> is_last_component(e.rel_path, e.name))
}

/// Relies on `walkdir::WalkDir` and `walkdir::IntoIter::filter_entry`: the
/// traversal yields the root and the entries beneath it, except that an entry
/// failing the predicate is skipped, a directory together with its whole
/// subtree; the predicate is the verified descent filter, and `file_name`
/// returns the path's final component. An entry that errors or has a
/// non-representable name is reported as `None`.
#[verifier::external_body]
fn walk_filtered(root: &String) -> (r: Vec<Option<FsEntry>>)
    ensures
        forall|k: int|
            0 <= k < r.deep_view().len() ==> match #[trigger] r.deep_view()[k] {
                Some(e) => walked_entry_ok(e),
                None => true,
            },
{
    let rootp = std::path::Path::new(root.as_str());
    let pred = |e: &walkdir::DirEntry| should_descend(e.file_type().is_dir(), &e.file_name().to_string_lossy());
    walkdir::WalkDir::new(rootp).into_iter().filter_entry(pred).map(|res| res.ok().and_then(|e| {
        let parts: Option<Vec<&str>> = e.path().strip_prefix(rootp).ok()?.components().map(|c| c.as_os_str().to_str()).collect();
        Some(FsEntry { rel_path: parts?.join("/"), name: e.file_name().to_str()?.to_string(), is_dir: e.file_type().is_dir() })
    })).collect()
}

/// An entry the plan includes: readable was already decided; here it must
/// have a non-empty relative path (the root itself is never archived), must
/// not be an excluded directory, and must not be an excluded file.
pub open spec fn included_entry(e: FsEntryModel) -> bool {
    &&& e.rel_path.len() > 0
    &&& (e.is_dir ==> !excluded_dir_name(e.name))
    &&& (!e.is_dir ==> !excluded_file_name(e.name))
}

/// The snapshot plan of a walk: the included entries, in walk order.
pub open spec fn spec_plan(items: Seq<Option<FsEntryModel>>) -> Seq<FsEntryModel>
    decreases items.len(),
{
    if items.len() == 0 {
        Seq::empty()
    } else {
        let rest = spec_plan(items.drop_last());
        match items.last() {
            Some(e) => if included_entry(e) {
                rest.push(e)
            } else {
                rest
            },
            None => rest,
        }
    }
}

/// Keep exactly the included entries of a walk, in order.
pub fn plan_entries(items: &Vec<Option<FsEntry>>) -> (r: Vec<FsEntry>)
    ensures
        r.deep_view() == spec_plan(items.deep_view()),
{
    let ghost all = items.deep_view();
    let mut r: Vec<FsEntry> = Vec::new();
    let mut i: usize = 0;
    while i < items.len()
        invariant
            all == items.deep_view(),
            all.len() == items@.len(),
            i <= items@.len(),
            forall|k: int| 0 <= k < all.len() ==> all[k] == items@[k].deep_view(),
            r.deep_view() == spec_plan(all.take(i as int)),
        decreases items@.len() - i,
    {
        proof {
            assert(all.take(i + 1).drop_last() =~= all.take(i as int));
            assert(all.take(i + 1).last() == all[i as int]);
        }
        match &items[i] {
            Some(e) => {
                let keep = if e.rel_path.as_str().is_empty() {
                    false
                } else if e.is_dir {
                    !is_excluded_dir_name(e.name.as_str())
                } else {
                    !is_excluded_file_name(e.name.as_str())
                };
                if keep {
                    r.push(e.clone());
                    proof {
                        assert(r.deep_view() =~= spec_plan(all.take(i + 1)));
                    }
                } else {
                    assert(!included_entry(all[i as int]->0));
                }
            },
            None => {},
        }
        i = i + 1;
    }
    proof {
        assert(all.take(all.len() as int) =~= all);
    }
    r
}

/// Every planned entry is included, and comes from the walked items.
pub proof fn lemma_spec_plan_sound(items: Seq<Option<FsEntryModel>>)
    ensures
        forall|k: int|
            0 <= k < spec_plan(items).len() ==> included_entry(#[trigger] spec_plan(items)[k])
                && exists|j: int| 0 <= j < items.len() && items[j] == Some(spec_plan(items)[k]),
    decreases items.len(),
{
    if items.len() > 0 {
        lemma_spec_plan_sound(items.drop_last());
        assert forall|k: int| 0 <= k < spec_plan(items).len() implies included_entry(
            #[trigger] spec_plan(items)[k],
        ) && exists|j: int| 0 <= j < items.len() && items[j] == Some(spec_plan(items)[k]) by {
            let rest = spec_plan(items.drop_last());
            if k < rest.len() {
                assert(spec_plan(items)[k] == rest[k]);
                let j = choose|j: int|
                    0 <= j < items.drop_last().len() && items.drop_last()[j] == Some(rest[k]);
                assert(items[j] == Some(spec_plan(items)[k]));
            } else {
                assert(items[items.len() - 1] == Some(spec_plan(items)[k]));
            }
        }
    }
}

/// A walked item that is readable and included is in the plan.
pub proof fn lemma_spec_plan_complete(items: Seq<Option<FsEntryModel>>, j: int)
    requires
        0 <= j < items.len(),
        items[j] is Some,
        included_entry(items[j]->0),
    ensures
        spec_plan(items).contains(items[j]->0),
    decreases items.len(),
{
    if j == items.len() - 1 {
        assert(spec_plan(items).last() == items[j]->0);
    } else {
        lemma_spec_plan_complete(items.drop_last(), j);
        let rest = spec_plan(items.drop_last());
        let k = choose|k: int| 0 <= k < rest.len() && rest[k] == items[j]->0;
        assert(spec_plan(items)[k] == items[j]->0);
    }
}

/// A walked item that is readable but not included is not in the plan.
pub proof fn lemma_spec_plan_excludes(items: Seq<Option<FsEntryModel>>, e: FsEntryModel)
    requires
        !included_entry(e),
    ensures
        !spec_plan(items).contains(e),
{
    lemma_spec_plan_sound(items);
    if spec_plan(items).contains(e) {
        let k = choose|k: int| 0 <= k < spec_plan(items).len() && spec_plan(items)[k] == e;
        assert(included_entry(spec_plan(items)[k]));
    }
}

/// Law: a readable file whose name contains ".dll" never reaches the plan,
/// while a readable entry with a non-empty path and a non-excluded name
/// always does — excluding a file does not disturb its siblings.
pub proof fn lemma_dll_filtering(items: Seq<Option<FsEntryModel>>, j: int)
    requires
        0 <= j < items.len(),
        items[j] is Some,
    ensures
        !items[j]->0.is_dir && excluded_file_name(items[j]->0.name) ==> !spec_plan(
            items,
        ).contains(items[j]->0),
        included_entry(items[j]->0) ==> spec_plan(items).contains(items[j]->0),
{
    if !items[j]->0.is_dir && excluded_file_name(items[j]->0.name) {
        lemma_spec_plan_excludes(items, items[j]->0);
    }
    if included_entry(items[j]->0) {
        lemma_spec_plan_complete(items, j);
    }
}

/// How many walked items were unreadable: vanished mid-walk, erroring, or
/// carrying a name the platform cannot represent.
pub open spec fn count_unreadable(items: Seq<Option<FsEntryModel>>) -> int
    decreases items.len(),
{
    if items.len() == 0 {
        0
    } else {
        count_unreadable(items.drop_last()) + if items.last() is None {
            1int
        } else {
            0int
        }
    }
}

/// Count the unreadable items of a walk.
pub fn count_unreadable_items(items: &Vec<Option<FsEntry>>) -> (n: usize)
    ensures
        n == count_unreadable(items.deep_view()),
{
    let ghost all = items.deep_view();
    let mut n: usize = 0;
    let mut i: usize = 0;
    while i < items.len()
        invariant
            all == items.deep_view(),
            all.len() == items@.len(),
            i <= items@.len(),
            n <= i,
            n == count_unreadable(all.take(i as int)),
        decreases items@.len() - i,
    {
        proof {
            assert(all.take(i + 1).drop_last() =~= all.take(i as int));
            assert(all.take(i + 1).last() == all[i as int]);
        }
        if items[i].is_none() {
            n = n + 1;
        }
        i = i + 1;
    }
    proof {
        assert(all.take(all.len() as int) =~= all);
    }
    n
}

/// What every entry of a collected backup plan satisfies.
pub open spec fn plan_entry_ok(e: FsEntryModel) -> bool {
    &&& included_entry(e)
    &&& !has_excluded_dir_component(e.rel_path, e.is_dir)
    &&& is_last_component(e.rel_path, e.name)
}

/// Walk the source root and keep exactly the included entries; beside the
/// plan, report how many entries the walk could not read, so the caller can
/// log the skips.
///
/// Every entry of the plan has a non-empty relative path, no directory
/// component with an excluded name anywhere on its path, a name that is its
/// path's last component, and — if a file — a name that is not excluded;
/// the plan and the count come from one walk's items.
pub fn collect_backup_plan(root: &String) -> (r: (Vec<FsEntry>, usize))
    ensures
        forall|k: int|
            0 <= k < r.0.deep_view().len() ==> plan_entry_ok(#[trigger] r.0.deep_view()[k]),
        exists|items: Seq<Option<FsEntryModel>>|
            #![trigger spec_plan(items)]
            r.0.deep_view() == spec_plan(items) && r.1 == count_unreadable(items),
{
    let items = walk_filtered(root);
    let skipped = count_unreadable_items(&items);
    let r = plan_entries(&items);
    proof {
        lemma_spec_plan_sound(items.deep_view());
        assert forall|k: int| 0 <= k < r.deep_view().len() implies plan_entry_ok(
            #[trigger] r.deep_view()[k],
        ) by {
            let e = r.deep_view()[k];
            let j = choose|j: int|
                0 <= j < items.deep_view().len() && items.deep_view()[j] == Some(e);
            assert(walked_entry_ok(e));
        }
    }
    (r, skipped)
}

} // verus!
