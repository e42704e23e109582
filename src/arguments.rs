use vstd::prelude::*;

use crate::defaults::{default_set, set_default};
use crate::error::CommandError;
use crate::model::{LaunchArgument, PythonScript};
use crate::table::{has_id, has_key, rows_updated, Record, StoreError, Table};

verus! {

/// The row of `s` that holds the natural key `k`, where one does.
pub open spec fn row_with_key<E: Record>(s: Seq<E>, k: Seq<char>) -> E {
    choose|r: E| s.contains(r) && r.key_of() == k
}

proof fn lemma_row_with_key<E: Record>(s: Seq<E>, r: E)
    requires
        crate::table::unique_keys(s),
        s.contains(r),
    ensures
        row_with_key(s, r.key_of()) == r,
{
    let i = choose|i: int| 0 <= i < s.len() && s[i] == r;
    let c = row_with_key(s, r.key_of());
    let j = choose|j: int| 0 <= j < s.len() && s[j] == c;
    if j != i {
        assert(s[j].key_of() == s[i].key_of());
    }
}

/// Whether `r` is the launch-argument set added for `argument_string` under
/// `id` at `now`.
pub open spec fn is_new_argument_set(
    r: LaunchArgument,
    argument_string: Seq<char>,
    project_file_id: Option<Seq<char>>,
    python_script_id: Option<Seq<char>>,
    id: Seq<char>,
    now: Seq<char>,
) -> bool {
    &&& r.id@ == id
    &&& !r.is_default
    &&& r.argument_string@ == argument_string
    &&& match (r.last_used_project_file_id, project_file_id) {
        (Some(a), Some(b)) => a@ == b,
        (None, None) => true,
        _ => false,
    }
    &&& match (r.last_used_python_script_id, python_script_id) {
        (Some(a), Some(b)) => a@ == b,
        (None, None) => true,
        _ => false,
    }
    &&& r.created@ == now
    &&& r.modified@ == now
    &&& r.accessed@ == now
}

pub open spec fn opt_text(o: Option<&str>) -> Option<Seq<char>> {
    match o {
        Some(s) => Some(s@),
        None => None,
    }
}

fn opt_owned(o: Option<&str>) -> (r: Option<String>)
    ensures
        match (r, o) {
            (Some(a), Some(b)) => a@ == b@,
            (None, None) => true,
            _ => false,
        },
{
    match o {
        Some(s) => Some(s.to_owned()),
        None => None,
    }
}

/// Records the launch-argument set `argument_string` and gives its
/// identifier: an existing set with that string is touched and keeps its
/// identifier; otherwise a set is added under `id`.
pub fn insert_launch_argument(
    arguments: &mut Table<LaunchArgument>,
    argument_string: &str,
    project_file_id: Option<&str>,
    python_script_id: Option<&str>,
    id: &String,
    now: &String,
) -> (r: Result<String, CommandError>)
    requires
        old(arguments).wf(),
    ensures
        final(arguments).wf(),
        has_key(old(arguments)@, argument_string@) ==> {
            let prev = row_with_key(old(arguments)@, argument_string@);
            &&& r matches Ok(i) && i@ == prev.id@
            &&& rows_updated(final(arguments)@, old(arguments)@, prev, now@)
        },
        !has_key(old(arguments)@, argument_string@) && has_id(old(arguments)@, id@) ==> r == Err::<
            String,
            CommandError,
        >(CommandError::Storage(StoreError::DuplicateId)) && final(arguments)@ == old(arguments)@,
        !has_key(old(arguments)@, argument_string@) && !has_id(old(arguments)@, id@) ==> {
            &&& r matches Ok(i) && i@ == id@
            &&& final(arguments)@.len() == old(arguments)@.len() + 1
            &&& final(arguments)@.drop_last() == old(arguments)@
            &&& is_new_argument_set(
                final(arguments)@.last(),
                argument_string@,
                opt_text(project_file_id),
                opt_text(python_script_id),
                id@,
                now@,
            )
        },
{
    let ghost s = arguments@;
    match arguments.get_by_key(argument_string) {
        Some(prev) => {
            proof {
                lemma_row_with_key(s, prev);
                let i = choose|i: int| 0 <= i < s.len() && s[i] == prev;
                assert forall|j: int| 0 <= j < s.len() && s[j].id_of() != prev.id_of() implies s[j].key_of()
                    != prev.key_of() by {
                    if j < i {
                        assert(s[j].key_of() != s[i].key_of());
                    } else if j > i {
                        assert(s[i].key_of() != s[j].key_of());
                    }
                }
            }
            let _ = arguments.update(&prev, now);
            Ok(prev.id)
        },
        None => {
            let entry = LaunchArgument {
                id: id.clone(),
                is_default: false,
                argument_string: argument_string.to_owned(),
                last_used_project_file_id: opt_owned(project_file_id),
                last_used_python_script_id: opt_owned(python_script_id),
                created: now.clone(),
                modified: now.clone(),
                accessed: now.clone(),
            };
            match arguments.insert(entry) {
                Ok(_) => {
                    assert(arguments@.drop_last() =~= s);
                    Ok(id.clone())
                },
                Err(e) => Err(CommandError::Storage(e)),
            }
        },
    }
}

/// Makes the launch-argument set `id` the default (`is_default`) or clears
/// its flag.
pub fn update_launch_argument(
    arguments: &mut Table<LaunchArgument>,
    id: &str,
    is_default: bool,
    now: &String,
) -> (r: Result<(), CommandError>)
    requires
        old(arguments).wf(),
    ensures
        final(arguments).wf(),
        r == (if !is_default && !has_id(old(arguments)@, id@) {
            Err::<(), CommandError>(CommandError::NotFound)
        } else {
            Ok(())
        }),
        r is Ok ==> default_set(final(arguments)@, old(arguments)@, id@, is_default, now@),
        r is Err ==> final(arguments)@ == old(arguments)@,
{
    set_default(arguments, id, is_default, now)
}

/// Removes the launch-argument set `id`, if any.
pub fn delete_launch_argument(arguments: &mut Table<LaunchArgument>, id: &str)
    requires
        old(arguments).wf(),
    ensures
        final(arguments).wf(),
        final(arguments)@ == old(arguments)@.filter(|a: LaunchArgument| a.id_of() != id@),
{
    arguments.delete(id)
}

/// Whether `r` is the script added for `path` under `id` at `now`.
pub open spec fn is_new_script(r: PythonScript, path: Seq<char>, id: Seq<char>, now: Seq<char>) -> bool {
    &&& r.id@ == id
    &&& r.script_file_path@ == path
    &&& r.created@ == now
    &&& r.modified@ == now
    &&& r.accessed@ == now
}

/// Records the script at `path` and gives its row: an existing row for that
/// path is touched and given as it was; otherwise a row is added under `id`.
pub fn insert_python_script(
    scripts: &mut Table<PythonScript>,
    path: &str,
    id: &String,
    now: &String,
) -> (r: Result<PythonScript, CommandError>)
    requires
        old(scripts).wf(),
    ensures
        final(scripts).wf(),
        has_key(old(scripts)@, path@) ==> {
            let prev = row_with_key(old(scripts)@, path@);
            &&& r == Ok::<PythonScript, CommandError>(prev)
            &&& rows_updated(final(scripts)@, old(scripts)@, prev, now@)
        },
        !has_key(old(scripts)@, path@) && has_id(old(scripts)@, id@) ==> r == Err::<
            PythonScript,
            CommandError,
        >(CommandError::Storage(StoreError::DuplicateId)) && final(scripts)@ == old(scripts)@,
        !has_key(old(scripts)@, path@) && !has_id(old(scripts)@, id@) ==> {
            &&& r matches Ok(row) && row == final(scripts)@.last()
            &&& final(scripts)@.len() == old(scripts)@.len() + 1
            &&& final(scripts)@.drop_last() == old(scripts)@
            &&& is_new_script(final(scripts)@.last(), path@, id@, now@)
        },
{
    let ghost s = scripts@;
    match scripts.get_by_key(path) {
        Some(prev) => {
            proof {
                lemma_row_with_key(s, prev);
                let i = choose|i: int| 0 <= i < s.len() && s[i] == prev;
                assert forall|j: int| 0 <= j < s.len() && s[j].id_of() != prev.id_of() implies s[j].key_of()
                    != prev.key_of() by {
                    if j < i {
                        assert(s[j].key_of() != s[i].key_of());
                    } else if j > i {
                        assert(s[i].key_of() != s[j].key_of());
                    }
                }
            }
            let _ = scripts.update(&prev, now);
            Ok(prev)
        },
        None => {
            let entry = PythonScript {
                id: id.clone(),
                script_file_path: path.to_owned(),
                created: now.clone(),
                modified: now.clone(),
                accessed: now.clone(),
            };
            let copy = entry.duplicate();
            match scripts.insert(entry) {
                Ok(_) => {
                    assert(scripts@.drop_last() =~= s);
                    Ok(copy)
                },
                Err(e) => Err(CommandError::Storage(e)),
            }
        },
    }
}

/// Removes the script `id`, if any.
pub fn delete_python_script(scripts: &mut Table<PythonScript>, id: &str)
    requires
        old(scripts).wf(),
    ensures
        final(scripts).wf(),
        final(scripts)@ == old(scripts)@.filter(|a: PythonScript| a.id_of() != id@),
{
    scripts.delete(id)
}

} // verus!
