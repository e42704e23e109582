use vstd::prelude::*;

use crate::defaults::{default_set, set_default};
use crate::error::CommandError;
use crate::model::{BlenderRepoPath, InstalledBlenderVersion};
use crate::table::{fetched, has_id, has_key, lemma_kept_filter, Record, StoreError, Table};
use crate::discovery::build_ids;
use crate::text::{is_prefix, starts_with, texts};

verus! {

/// Whether `r` is the root registered for `path` under `id` at `now`.
pub open spec fn is_new_root(r: BlenderRepoPath, path: Seq<char>, id: Seq<char>, now: Seq<char>) -> bool {
    &&& r.id@ == id
    &&& r.repo_directory_path@ == path
    &&& !r.is_default
    &&& r.created@ == now
    &&& r.modified@ == now
    &&& r.accessed@ == now
}

/// Registers `path` as an installation root under `id`, unless it is
/// registered already.
pub fn insert_blender_version_installation_location(
    roots: &mut Table<BlenderRepoPath>,
    path: &str,
    id: &String,
    now: &String,
) -> (r: Result<(), CommandError>)
    requires
        old(roots).wf(),
    ensures
        final(roots).wf(),
        has_key(old(roots)@, path@) ==> r is Ok && final(roots)@ == old(roots)@,
        !has_key(old(roots)@, path@) && has_id(old(roots)@, id@) ==> r == Err::<(), CommandError>(
            CommandError::Storage(StoreError::DuplicateId),
        ) && final(roots)@ == old(roots)@,
        !has_key(old(roots)@, path@) && !has_id(old(roots)@, id@) ==> r is Ok && final(
            roots)@.len() == old(roots)@.len() + 1 && final(roots)@.drop_last() == old(roots)@
            && is_new_root(final(roots)@.last(), path@, id@, now@),
{
    let entry = BlenderRepoPath {
        id: id.clone(),
        repo_directory_path: path.to_owned(),
        is_default: false,
        created: now.clone(),
        modified: now.clone(),
        accessed: now.clone(),
    };
    let ghost s = roots@;
    match roots.insert(entry) {
        Ok(_) => {
            proof {
                if !has_key(s, path@) {
                    assert(roots@.drop_last() =~= s);
                }
            }
            Ok(())
        },
        Err(e) => Err(CommandError::Storage(e)),
    }
}

/// Makes the root `id` the default (`is_default`) or clears its flag.
pub fn update_blender_version_installation_location(
    roots: &mut Table<BlenderRepoPath>,
    id: &str,
    is_default: bool,
    now: &String,
) -> (r: Result<(), CommandError>)
    requires
        old(roots).wf(),
    ensures
        final(roots).wf(),
        r == (if !is_default && !has_id(old(roots)@, id@) {
            Err::<(), CommandError>(CommandError::NotFound)
        } else {
            Ok(())
        }),
        r is Ok ==> default_set(final(roots)@, old(roots)@, id@, is_default, now@),
        r is Err ==> final(roots)@ == old(roots)@,
{
    set_default(roots, id, is_default, now)
}

/// The roots that match, by the store's fetch priority.
pub fn fetch_blender_version_installation_locations(
    roots: &Table<BlenderRepoPath>,
    id: Option<&str>,
    limit: Option<i64>,
    path: Option<&str>,
) -> (r: Vec<BlenderRepoPath>)
    ensures
        r@ == fetched(
            roots@,
            match id {
                Some(i) => Some(i@),
                None => None,
            },
            match limit {
                Some(n) => Some(n as int),
                None => None,
            },
            match path {
                Some(k) => Some(k@),
                None => None,
            },
        ),
{
    roots.fetch(id, limit, path)
}

/// Whether a build lies outside the root directory `root`.
pub open spec fn outside_root(root: Seq<char>) -> spec_fn(InstalledBlenderVersion) -> bool {
    |b: InstalledBlenderVersion| !is_prefix(root, b.installation_directory_path@)
}

pub open spec fn inside_root(root: Seq<char>) -> spec_fn(InstalledBlenderVersion) -> bool {
    |b: InstalledBlenderVersion| is_prefix(root, b.installation_directory_path@)
}

/// The root that holds `id`, where one does.
pub open spec fn root_with_id(s: Seq<BlenderRepoPath>, id: Seq<char>) -> BlenderRepoPath {
    choose|r: BlenderRepoPath| s.contains(r) && r.id@ == id
}

fn root_position(roots: &Table<BlenderRepoPath>, id: &str) -> (r: Option<usize>)
    ensures
        match r {
            Some(i) => i < roots@.len() && roots@[i as int].id_of() == id@,
            None => !has_id(roots@, id@),
        },
{
    let wanted: String = id.to_owned();
    let mut i: usize = 0;
    while i < roots.len()
        invariant
            i <= roots@.len(),
            wanted@ == id@,
            forall|j: int| 0 <= j < i ==> roots@[j].id_of() != id@,
        decreases roots@.len() - i,
    {
        if roots.row(i).id().eq(&wanted) {
            return Some(i);
        }
        i += 1;
    }
    None
}

/// Removes the root `id` and every build whose installation directory path
/// begins with the root's path; gives the removed builds' identifiers.
pub fn delete_blender_version_installation_location(
    roots: &mut Table<BlenderRepoPath>,
    builds: &mut Table<InstalledBlenderVersion>,
    id: &str,
) -> (r: Result<Vec<String>, CommandError>)
    requires
        old(roots).wf(),
        old(builds).wf(),
    ensures
        final(roots).wf(),
        final(builds).wf(),
        r is Err <==> !has_id(old(roots)@, id@),
        r matches Err(e) ==> e == CommandError::NotFound && final(roots)@ == old(roots)@ && final(
            builds)@ == old(builds)@,
        r is Ok ==> {
            let root = root_with_id(old(roots)@, id@).repo_directory_path@;
            &&& final(roots)@ == old(roots)@.filter(|x: BlenderRepoPath| x.id_of() != id@)
            &&& final(builds)@ == old(builds)@.filter(outside_root(root))
            &&& r matches Ok(removed) && texts(removed@) == build_ids(
                old(builds)@.filter(inside_root(root)),
            )
        },
{
    let i = match root_position(roots, id) {
        Some(i) => i,
        None => return Err(CommandError::NotFound),
    };
    let ghost s = roots@;
    let ghost t = builds@;
    let root = roots.row(i).repo_directory_path.clone();
    proof {
        let c = root_with_id(s, id@);
        assert(s.contains(s[i as int]));
        assert(s.contains(c) && c.id@ == id@);
        let j = choose|j: int| 0 <= j < s.len() && s[j] == c;
        assert(j == i) by {
            if j != i {
                assert(s[j].id_of() == s[i as int].id_of());
            }
        }
    }
    let mut keep: Vec<bool> = Vec::new();
    let mut removed: Vec<String> = Vec::new();
    let mut k: usize = 0;
    while k < builds.len()
        invariant
            builds@ == t,
            k <= t.len(),
            keep@.len() == k,
            forall|j: int| 0 <= j < k ==> keep@[j] == outside_root(root@)(t[j]),
            texts(removed@) == build_ids(t.take(k as int).filter(inside_root(root@))),
        decreases t.len() - k,
    {
        let b = builds.row(k);
        let inside = starts_with(&b.installation_directory_path, &root);
        proof {
            assert(t.take(k + 1) =~= t.take(k as int).push(t[k as int]));
            t.take(k as int).lemma_filter_push(t[k as int], inside_root(root@));
        }
        let ghost before = removed@;
        if inside {
            removed.push(b.id.clone());
            proof {
                assert(texts(removed@) =~= texts(before).push(t[k as int].id@));
                assert(build_ids(t.take(k as int).filter(inside_root(root@)).push(t[k as int]))
                    =~= build_ids(t.take(k as int).filter(inside_root(root@))).push(t[k as int].id@));
            }
        }
        keep.push(!inside);
        k += 1;
    }
    proof {
        assert(t.take(t.len() as int) =~= t);
        lemma_kept_filter(t, keep@, outside_root(root@));
    }
    builds.retain_marked(&keep);
    roots.delete(id);
    Ok(removed)
}

} // verus!
