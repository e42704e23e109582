use vstd::prelude::*;

use crate::error::CommandError;
use crate::model::{InstalledBlenderVersion, LaunchArgument, ProjectFile, PythonScript};
use crate::table::{has_id, row_with_id, rows_updated, Record, Table};
use crate::text::{holds_text, texts};

verus! {

/// The flag that hands a script to the launched program.
pub const PYTHON_FLAG: &'static str = "--python";

/// The pieces of `s` between runs of white space.
pub uninterp spec fn whitespace_split(s: Seq<char>) -> Seq<Seq<char>>;

/// Relies on str::split_whitespace: the pieces of `s` between runs of
/// Unicode white space, in order; an empty text has none.
#[verifier::external_body]
fn split_on_whitespace(s: &str) -> (r: Vec<String>)
    ensures
        texts(r@) == whitespace_split(s@),
        s@.len() == 0 ==> r@.len() == 0,
{
    s.split_whitespace().map(|t| t.to_string()).collect()
}

/// The argument list of a launch: the leading positional argument, if any;
/// then the tokens of the launch-argument set, if any; then, for a script,
/// `--python` and its path, or its path alone where `--python` is there already.
pub open spec fn assembled(
    leading: Option<Seq<char>>,
    tokens: Option<Seq<Seq<char>>>,
    script: Option<Seq<char>>,
) -> Seq<Seq<char>> {
    let first = match leading {
        Some(p) => seq![p],
        None => Seq::empty(),
    };
    let base = match tokens {
        Some(t) => first + t,
        None => first,
    };
    match script {
        Some(p) => if base.contains(PYTHON_FLAG@) {
            base.push(p)
        } else {
            base.push(PYTHON_FLAG@).push(p)
        },
        None => base,
    }
}

/// Builds the argument list of a launch from its parts, as `assembled` states.
pub fn assemble_launch_arguments(
    leading: Option<&str>,
    tokens: Option<&Vec<String>>,
    script: Option<&str>,
) -> (r: Vec<String>)
    ensures
        texts(r@) == assembled(
            match leading {
                Some(p) => Some(p@),
                None => None,
            },
            match tokens {
                Some(t) => Some(texts(t@)),
                None => None,
            },
            match script {
                Some(p) => Some(p@),
                None => None,
            },
        ),
{
    let mut out: Vec<String> = Vec::new();
    match leading {
        Some(p) => {
            out.push(p.to_owned());
        },
        None => {},
    }
    let ghost first = texts(out@);
    match tokens {
        Some(t) => {
            let mut i: usize = 0;
            while i < t.len()
                invariant
                    i <= t@.len(),
                    texts(out@) == first + texts(t@).take(i as int),
                decreases t@.len() - i,
            {
                let ghost before = out@;
                out.push(t[i].clone());
                proof {
                    assert(texts(out@) =~= texts(before).push(t@[i as int]@));
                    assert(texts(t@).take(i + 1) =~= texts(t@).take(i as int).push(t@[i as int]@));
                    assert(texts(out@) =~= first + texts(t@).take(i + 1));
                }
                i += 1;
            }
            proof {
                assert(texts(t@).take(t@.len() as int) =~= texts(t@));
            }
        },
        None => {
            assert(texts(out@) =~= first);
        },
    }
    let ghost base = texts(out@);
    match script {
        Some(p) => {
            let flag: String = PYTHON_FLAG.to_owned();
            if !holds_text(&out, &flag) {
                out.push(flag);
            }
            out.push(p.to_owned());
            proof {
                assert(texts(out@) =~= (if base.contains(PYTHON_FLAG@) {
                    base.push(p@)
                } else {
                    base.push(PYTHON_FLAG@).push(p@)
                }));
            }
        },
        None => {},
    }
    proof {
        let lead = match leading {
            Some(p) => Some(p@),
            None => None,
        };
        assert(first =~= match lead {
            Some(q) => seq![q],
            None => Seq::<Seq<char>>::empty(),
        });
    }
    out
}

/// The executable to start and the arguments to start it with.
pub struct LaunchPlan {
    pub executable_file_path: String,
    pub arguments: Vec<String>,
}

/// The tokens of the launch-argument set `id` of `s`, if there is one.
pub open spec fn set_tokens(s: Seq<LaunchArgument>, id: Option<Seq<char>>) -> Option<Seq<Seq<char>>> {
    match id {
        Some(i) => Some(whitespace_split(row_with_id(s, i).argument_string@)),
        None => None,
    }
}

/// The path of the script `id` of `s`, if there is one.
pub open spec fn script_path(s: Seq<PythonScript>, id: Option<Seq<char>>) -> Option<Seq<char>> {
    match id {
        Some(i) => Some(row_with_id(s, i).script_file_path@),
        None => None,
    }
}

pub open spec fn opt_view(o: Option<&str>) -> Option<Seq<char>> {
    match o {
        Some(s) => Some(s@),
        None => None,
    }
}

/// Whether every identifier that is given names a row.
pub open spec fn resolvable<E: Record>(s: Seq<E>, id: Option<Seq<char>>) -> bool {
    match id {
        Some(i) => has_id(s, i),
        None => true,
    }
}

/// Whether `t` is `s` with the row `id` touched at `now`, where `id` is given.
pub open spec fn touched<E: Record>(t: Seq<E>, s: Seq<E>, id: Option<Seq<char>>, now: Seq<char>) -> bool {
    match id {
        Some(i) => rows_updated(t, s, row_with_id(s, i), now),
        None => t == s,
    }
}

/// Whether `id`, where given, names a row of `t`.
fn names_row<E: Record>(t: &Table<E>, id: Option<&str>) -> (r: bool)
    requires
        t.wf(),
    ensures
        r == resolvable(t@, opt_view(id)),
{
    match id {
        Some(i) => t.get(i).is_some(),
        None => true,
    }
}

/// Resolves and touches the launch-argument set and the script, and
/// assembles the arguments after `leading`.
fn plan_arguments(
    arguments: &mut Table<LaunchArgument>,
    scripts: &mut Table<PythonScript>,
    leading: Option<&str>,
    launch_arguments_id: Option<&str>,
    python_script_id: Option<&str>,
    now: &String,
) -> (r: Result<Vec<String>, CommandError>)
    requires
        old(arguments).wf(),
        old(scripts).wf(),
    ensures
        final(arguments).wf(),
        final(scripts).wf(),
        r is Ok <==> resolvable(old(arguments)@, opt_view(launch_arguments_id)) && resolvable(
            old(scripts)@,
            opt_view(python_script_id),
        ),
        r matches Err(e) ==> e == CommandError::NotFound,
        r matches Ok(v) ==> {
            &&& touched(final(arguments)@, old(arguments)@, opt_view(launch_arguments_id), now@)
            &&& touched(final(scripts)@, old(scripts)@, opt_view(python_script_id), now@)
            &&& texts(v@) == assembled(
                opt_view(leading),
                set_tokens(old(arguments)@, opt_view(launch_arguments_id)),
                script_path(old(scripts)@, opt_view(python_script_id)),
            )
        },
{
    let tokens: Option<Vec<String>> = match launch_arguments_id {
        Some(aid) => match arguments.touch(aid, now) {
            Some(set) => Some(split_on_whitespace(&set.argument_string)),
            None => return Err(CommandError::NotFound),
        },
        None => None,
    };
    let script: Option<PythonScript> = match python_script_id {
        Some(sid) => match scripts.touch(sid, now) {
            Some(s) => Some(s),
            None => return Err(CommandError::NotFound),
        },
        None => None,
    };
    let v = assemble_launch_arguments(
        leading,
        match &tokens {
            Some(t) => Some(t),
            None => None,
        },
        match &script {
            Some(s) => Some(s.script_file_path.as_str()),
            None => None,
        },
    );
    Ok(v)
}

/// Plans the launch of build `id`: touches the build, the launch-argument
/// set and the script that are named, and assembles the arguments.
/// Fails with `NotFound` where an identifier names no row.
pub fn launch_blender_version_with_launch_args(
    builds: &mut Table<InstalledBlenderVersion>,
    arguments: &mut Table<LaunchArgument>,
    scripts: &mut Table<PythonScript>,
    id: &str,
    launch_arguments_id: Option<&str>,
    python_script_id: Option<&str>,
    now: &String,
) -> (r: Result<LaunchPlan, CommandError>)
    requires
        old(builds).wf(),
        old(arguments).wf(),
        old(scripts).wf(),
    ensures
        final(builds).wf(),
        final(arguments).wf(),
        final(scripts).wf(),
        r is Ok <==> has_id(old(builds)@, id@) && resolvable(
            old(arguments)@,
            opt_view(launch_arguments_id),
        ) && resolvable(old(scripts)@, opt_view(python_script_id)),
        r matches Err(e) ==> e == CommandError::NotFound,
        r is Err ==> final(builds)@ == old(builds)@ && final(arguments)@ == old(arguments)@ && final(
            scripts)@ == old(scripts)@,
        r matches Ok(plan) ==> {
            &&& touched(final(builds)@, old(builds)@, Some(id@), now@)
            &&& touched(final(arguments)@, old(arguments)@, opt_view(launch_arguments_id), now@)
            &&& touched(final(scripts)@, old(scripts)@, opt_view(python_script_id), now@)
            &&& plan.executable_file_path@ == row_with_id(
                old(builds)@,
                id@,
            ).executable_file_path@
            &&& texts(plan.arguments@) == assembled(
                None,
                set_tokens(old(arguments)@, opt_view(launch_arguments_id)),
                script_path(old(scripts)@, opt_view(python_script_id)),
            )
        },
{
    if !names_row(builds, Some(id)) || !names_row(arguments, launch_arguments_id) || !names_row(
        scripts,
        python_script_id,
    ) {
        return Err(CommandError::NotFound);
    }
    let build = match builds.touch(id, now) {
        Some(b) => b,
        None => return Err(CommandError::NotFound),
    };
    let arguments = plan_arguments(arguments, scripts, None, launch_arguments_id, python_script_id, now)?;
    Ok(LaunchPlan { executable_file_path: build.executable_file_path, arguments })
}

/// Whether `t` is the project file `prev` after it was opened with build
/// `build_id` at `now`.
pub open spec fn opened_with(t: ProjectFile, prev: ProjectFile, build_id: Seq<char>, now: Seq<char>) -> bool {
    &&& t.id == prev.id
    &&& t.file_path == prev.file_path
    &&& t.file_name == prev.file_name
    &&& t.associated_series_json == prev.associated_series_json
    &&& t.last_used_blender_version_id matches Some(b) && b@ == build_id
    &&& t.created == prev.created
    &&& t.modified@ == now
    &&& t.accessed@ == now
}

/// Records that the project file `id` is opened with build `build_id`.
fn mark_opened(files: &mut Table<ProjectFile>, id: &str, build_id: &str, now: &String) -> (r: Option<
    ProjectFile,
>)
    requires
        old(files).wf(),
    ensures
        final(files).wf(),
        r is None <==> !has_id(old(files)@, id@),
        r is None ==> final(files)@ == old(files)@,
        r matches Some(f) ==> {
            &&& f == row_with_id(old(files)@, id@)
            &&& final(files)@.len() == old(files)@.len()
            &&& forall|i: int|
                0 <= i < old(files)@.len() ==> if old(files)@[i].id@ == id@ {
                    opened_with(final(files)@[i], old(files)@[i], build_id@, now@)
                } else {
                    final(files)@[i] == old(files)@[i]
                }
        },
{
    let f = match files.get(id) {
        Some(f) => f,
        None => return None,
    };
    let e = ProjectFile {
        id: f.id.clone(),
        file_path: f.file_path.clone(),
        file_name: f.file_name.clone(),
        associated_series_json: f.associated_series_json.clone(),
        last_used_blender_version_id: Some(build_id.to_owned()),
        created: f.created.clone(),
        modified: f.modified.clone(),
        accessed: f.accessed.clone(),
    };
    let ghost s = files@;
    proof {
        let i = choose|i: int| 0 <= i < s.len() && s[i] == f;
        assert forall|j: int| 0 <= j < s.len() && s[j].id_of() != e.id_of() implies s[j].key_of()
            != e.key_of() by {
            if j < i {
                assert(s[j].key_of() != s[i].key_of());
            } else if j > i {
                assert(s[i].key_of() != s[j].key_of());
            }
        }
    }
    let _ = files.update(&e, now);
    Some(f)
}

/// Plans the opening of project file `id` with build `build_id`: records the
/// build on the file, touches the build, the launch-argument set and the
/// script that are named, and assembles the arguments after the file's path.
/// Fails with `NotFound` where an identifier names no row.
pub fn open_blend_file(
    files: &mut Table<ProjectFile>,
    builds: &mut Table<InstalledBlenderVersion>,
    arguments: &mut Table<LaunchArgument>,
    scripts: &mut Table<PythonScript>,
    id: &str,
    build_id: &str,
    launch_arguments_id: Option<&str>,
    python_script_id: Option<&str>,
    now: &String,
) -> (r: Result<LaunchPlan, CommandError>)
    requires
        old(files).wf(),
        old(builds).wf(),
        old(arguments).wf(),
        old(scripts).wf(),
    ensures
        final(files).wf(),
        final(builds).wf(),
        final(arguments).wf(),
        final(scripts).wf(),
        r is Ok <==> has_id(old(files)@, id@) && has_id(old(builds)@, build_id@) && resolvable(
            old(arguments)@,
            opt_view(launch_arguments_id),
        ) && resolvable(old(scripts)@, opt_view(python_script_id)),
        r matches Err(e) ==> e == CommandError::NotFound,
        r is Err ==> final(files)@ == old(files)@ && final(builds)@ == old(builds)@ && final(
            arguments)@ == old(arguments)@ && final(scripts)@ == old(scripts)@,
        r matches Ok(plan) ==> {
            &&& final(files)@.len() == old(files)@.len()
            &&& forall|i: int|
                0 <= i < old(files)@.len() ==> if old(files)@[i].id@ == id@ {
                    opened_with(final(files)@[i], old(files)@[i], build_id@, now@)
                } else {
                    final(files)@[i] == old(files)@[i]
                }
            &&& touched(final(builds)@, old(builds)@, Some(build_id@), now@)
            &&& touched(final(arguments)@, old(arguments)@, opt_view(launch_arguments_id), now@)
            &&& touched(final(scripts)@, old(scripts)@, opt_view(python_script_id), now@)
            &&& plan.executable_file_path@ == row_with_id(
                old(builds)@,
                build_id@,
            ).executable_file_path@
            &&& texts(plan.arguments@) == assembled(
                Some(row_with_id(old(files)@, id@).file_path@),
                set_tokens(old(arguments)@, opt_view(launch_arguments_id)),
                script_path(old(scripts)@, opt_view(python_script_id)),
            )
        },
{
    if !names_row(files, Some(id)) || !names_row(builds, Some(build_id)) || !names_row(
        arguments,
        launch_arguments_id,
    ) || !names_row(scripts, python_script_id) {
        return Err(CommandError::NotFound);
    }
    let file = match mark_opened(files, id, build_id, now) {
        Some(f) => f,
        None => return Err(CommandError::NotFound),
    };
    let build = match builds.touch(build_id, now) {
        Some(b) => b,
        None => return Err(CommandError::NotFound),
    };
    let arguments = plan_arguments(
        arguments,
        scripts,
        Some(file.file_path.as_str()),
        launch_arguments_id,
        python_script_id,
        now,
    )?;
    Ok(LaunchPlan { executable_file_path: build.executable_file_path, arguments })
}

} // verus!
