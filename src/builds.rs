use vstd::prelude::*;

use crate::defaults::{default_set, set_default};
use crate::error::CommandError;
use crate::model::{DownloadableBlenderVersion, InstalledBlenderVersion};
use crate::table::{has_id, has_key, row_with_id, Record, StoreError, Table};

verus! {

/// Makes build `id` the default (`is_default`) or clears its flag.
pub fn update_installed_blender_version(
    builds: &mut Table<InstalledBlenderVersion>,
    id: &str,
    is_default: bool,
    now: &String,
) -> (r: Result<(), CommandError>)
    requires
        old(builds).wf(),
    ensures
        final(builds).wf(),
        r == (if !is_default && !has_id(old(builds)@, id@) {
            Err::<(), CommandError>(CommandError::NotFound)
        } else {
            Ok(())
        }),
        r is Ok ==> default_set(final(builds)@, old(builds)@, id@, is_default, now@),
        r is Err ==> final(builds)@ == old(builds)@,
{
    set_default(builds, id, is_default, now)
}

/// Removes build `id` and gives the row, whose installation directory the
/// caller then deletes.
pub fn uninstall_and_delete_installed_blender_version_data(
    builds: &mut Table<InstalledBlenderVersion>,
    id: &str,
) -> (r: Result<InstalledBlenderVersion, CommandError>)
    requires
        old(builds).wf(),
    ensures
        final(builds).wf(),
        r is Err <==> !has_id(old(builds)@, id@),
        r matches Err(e) ==> e == CommandError::NotFound && final(builds)@ == old(builds)@,
        r matches Ok(b) ==> b == row_with_id(old(builds)@, id@) && final(builds)@ == old(
            builds)@.filter(|x: InstalledBlenderVersion| x.id_of() != id@),
{
    match builds.get(id) {
        Some(b) => {
            builds.delete(id);
            Ok(b)
        },
        None => Err(CommandError::NotFound),
    }
}

/// Whether `r` is the build installed from `meta` into `dir`, with launcher
/// `exe`, under `id` at `now`.
pub open spec fn is_installed_build(
    r: InstalledBlenderVersion,
    meta: DownloadableBlenderVersion,
    dir: Seq<char>,
    exe: Seq<char>,
    id: Seq<char>,
    now: Seq<char>,
) -> bool {
    &&& r.id@ == id
    &&& r.version == meta.version
    &&& r.variant_type == meta.release_cycle
    &&& r.download_url == Some(meta.url)
    &&& !r.is_default
    &&& r.installation_directory_path@ == dir
    &&& r.executable_file_path@ == exe
    &&& r.created@ == now
    &&& r.modified@ == now
    &&& r.accessed@ == now
}

/// Whether `r` is the stored build `prev` installed again from `meta`: the
/// identifier and creation time kept, the rest from the new install.
pub open spec fn is_reinstalled_build(
    r: InstalledBlenderVersion,
    prev: InstalledBlenderVersion,
    meta: DownloadableBlenderVersion,
    dir: Seq<char>,
    now: Seq<char>,
) -> bool {
    &&& r.id == prev.id
    &&& r.version == meta.version
    &&& r.variant_type == meta.release_cycle
    &&& r.download_url == Some(meta.url)
    &&& !r.is_default
    &&& r.installation_directory_path@ == dir
    &&& r.executable_file_path == prev.executable_file_path
    &&& r.created == prev.created
    &&& r.modified@ == now
    &&& r.accessed@ == now
}

/// Records a build extracted into `installation_directory_path` with its
/// launcher at `executable_file_path`: a new row under `id`, or, where a row
/// holds that launcher already, that row rewritten in place.
pub fn download_and_install_blender_version(
    builds: &mut Table<InstalledBlenderVersion>,
    meta: &DownloadableBlenderVersion,
    installation_directory_path: &str,
    executable_file_path: &str,
    id: &String,
    now: &String,
) -> (r: Result<(), CommandError>)
    requires
        old(builds).wf(),
    ensures
        final(builds).wf(),
        has_key(old(builds)@, executable_file_path@) ==> {
            &&& r is Ok
            &&& final(builds)@.len() == old(builds)@.len()
            &&& forall|i: int|
                0 <= i < old(builds)@.len() ==> if old(builds)@[i].executable_file_path@
                    == executable_file_path@ {
                    is_reinstalled_build(
                        final(builds)@[i],
                        old(builds)@[i],
                        *meta,
                        installation_directory_path@,
                        now@,
                    )
                } else {
                    final(builds)@[i] == old(builds)@[i]
                }
        },
        !has_key(old(builds)@, executable_file_path@) && has_id(old(builds)@, id@) ==> r == Err::<
            (),
            CommandError,
        >(CommandError::Storage(StoreError::DuplicateId)) && final(builds)@ == old(builds)@,
        !has_key(old(builds)@, executable_file_path@) && !has_id(old(builds)@, id@) ==> {
            &&& r is Ok
            &&& final(builds)@.len() == old(builds)@.len() + 1
            &&& final(builds)@.drop_last() == old(builds)@
            &&& is_installed_build(
                final(builds)@.last(),
                *meta,
                installation_directory_path@,
                executable_file_path@,
                id@,
                now@,
            )
        },
{
    let ghost s = builds@;
    match builds.get_by_key(executable_file_path) {
        None => {
            let entry = InstalledBlenderVersion {
                id: id.clone(),
                version: meta.version.clone(),
                variant_type: meta.release_cycle.clone(),
                download_url: Some(meta.url.clone()),
                is_default: false,
                installation_directory_path: installation_directory_path.to_owned(),
                executable_file_path: executable_file_path.to_owned(),
                created: now.clone(),
                modified: now.clone(),
                accessed: now.clone(),
            };
            match builds.insert(entry) {
                Ok(_) => {
                    assert(builds@.drop_last() =~= s);
                    Ok(())
                },
                Err(e) => Err(CommandError::Storage(e)),
            }
        },
        Some(prev) => {
            let e = InstalledBlenderVersion {
                id: prev.id.clone(),
                version: meta.version.clone(),
                variant_type: meta.release_cycle.clone(),
                download_url: Some(meta.url.clone()),
                is_default: false,
                installation_directory_path: installation_directory_path.to_owned(),
                executable_file_path: prev.executable_file_path.clone(),
                created: now.clone(),
                modified: now.clone(),
                accessed: now.clone(),
            };
            proof {
                let i = choose|i: int| 0 <= i < s.len() && s[i] == prev;
                assert forall|j: int| 0 <= j < s.len() && s[j].id_of() != e.id_of() implies s[j].key_of()
                    != e.key_of() by {
                    if j < i {
                        assert(s[j].key_of() != s[i].key_of());
                    } else if j > i {
                        assert(s[i].key_of() != s[j].key_of());
                    }
                }
                assert forall|j: int| 0 <= j < s.len() implies (s[j].executable_file_path@
                    == executable_file_path@) == (s[j].id_of() == e.id_of()) by {
                    if j < i {
                        assert(s[j].key_of() != s[i].key_of());
                        assert(s[j].id_of() != s[i].id_of());
                    } else if j > i {
                        assert(s[i].key_of() != s[j].key_of());
                        assert(s[i].id_of() != s[j].id_of());
                    }
                }
            }
            let _ = builds.update(&e, now);
            Ok(())
        },
    }
}

} // verus!
