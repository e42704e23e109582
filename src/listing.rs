use vstd::prelude::*;
use vstd::seq_lib::{to_multiset_build, to_multiset_insert};

use crate::model::{InstalledBlenderVersion, LaunchArgument, ProjectFile, PythonScript};
use crate::table::{fetched, Record, Table};
use crate::text::{lemma_text_le_total, lemma_text_le_transitive, text_le, text_le_exec};

verus! {

/// A row that listings show newest or highest first, by a text field.
pub trait Listed: Record {
    spec fn order_of(&self) -> Seq<char>;

    fn order(&self) -> (r: &String)
        ensures
            r@ == self.order_of(),
    ;
}

/// Whether `s` runs from the highest order text to the lowest.
pub open spec fn listed_desc<E: Listed>(s: Seq<E>) -> bool {
    forall|p: int, q: int| 0 <= p < q < s.len() ==> text_le(s[q].order_of(), s[p].order_of())
}

/// The rows of `v` from the highest order text to the lowest.
pub fn sort_listing<E: Listed>(v: &Vec<E>) -> (r: Vec<E>)
    ensures
        listed_desc(r@),
        r@.to_multiset() == v@.to_multiset(),
{
    let mut out: Vec<E> = Vec::new();
    let mut i: usize = 0;
    assert(out@ =~= v@.take(0));
    while i < v.len()
        invariant
            i <= v@.len(),
            listed_desc(out@),
            out@.to_multiset() == v@.take(i as int).to_multiset(),
        decreases v@.len() - i,
    {
        let x = v[i].duplicate();
        let mut j: usize = 0;
        while j < out.len() && text_le_exec(x.order(), out[j].order())
            invariant
                j <= out@.len(),
                forall|p: int| 0 <= p < j ==> text_le(x.order_of(), out@[p].order_of()),
            decreases out@.len() - j,
        {
            j += 1;
        }
        let ghost before = out@;
        proof {
            assert forall|q: int| j <= q < before.len() implies text_le(
                before[q].order_of(),
                x.order_of(),
            ) by {
                lemma_text_le_total(before[j as int].order_of(), x.order_of());
                if q > j {
                    lemma_text_le_transitive(
                        before[q].order_of(),
                        before[j as int].order_of(),
                        x.order_of(),
                    );
                }
            }
        }
        out.insert(j, x);
        proof {
            to_multiset_insert(before, j as int, x);
            assert(v@.take(i + 1) =~= v@.take(i as int).push(v@[i as int]));
            to_multiset_build(v@.take(i as int), v@[i as int]);
            assert forall|p: int, q: int| 0 <= p < q < out@.len() implies text_le(
                out@[q].order_of(),
                out@[p].order_of(),
            ) by {
                if q < j {
                    assert(out@[p] == before[p] && out@[q] == before[q]);
                } else if q == j {
                    assert(out@[p] == before[p]);
                } else if p == j {
                    assert(out@[q] == before[q - 1]);
                } else if p < j {
                    assert(out@[p] == before[p]);
                    assert(out@[q] == before[q - 1]);
                    lemma_text_le_transitive(out@[q].order_of(), x.order_of(), out@[p].order_of());
                } else {
                    assert(out@[p] == before[p - 1] && out@[q] == before[q - 1]);
                }
            }
        }
        i += 1;
    }
    proof {
        assert(v@.take(v@.len() as int) =~= v@);
    }
    out
}

pub open spec fn opt_text(o: Option<&str>) -> Option<Seq<char>> {
    match o {
        Some(s) => Some(s@),
        None => None,
    }
}

pub open spec fn opt_int(o: Option<i64>) -> Option<int> {
    match o {
        Some(n) => Some(n as int),
        None => None,
    }
}

/// The builds that match, by the store's fetch priority, highest version first.
pub fn fetch_installed_blender_versions(
    builds: &Table<InstalledBlenderVersion>,
    id: Option<&str>,
    limit: Option<i64>,
    executable_file_path: Option<&str>,
) -> (r: Vec<InstalledBlenderVersion>)
    ensures
        listed_desc(r@),
        r@.to_multiset() == fetched(
            builds@,
            opt_text(id),
            opt_int(limit),
            opt_text(executable_file_path),
        ).to_multiset(),
{
    sort_listing(&builds.fetch(id, limit, executable_file_path))
}

/// The launch-argument sets that match, most recently used first.
pub fn fetch_launch_arguments(
    arguments: &Table<LaunchArgument>,
    id: Option<&str>,
    limit: Option<i64>,
    argument_string: Option<&str>,
) -> (r: Vec<LaunchArgument>)
    ensures
        listed_desc(r@),
        r@.to_multiset() == fetched(
            arguments@,
            opt_text(id),
            opt_int(limit),
            opt_text(argument_string),
        ).to_multiset(),
{
    sort_listing(&arguments.fetch(id, limit, argument_string))
}

/// The project files that match, most recently used first.
pub fn fetch_blend_files(
    files: &Table<ProjectFile>,
    id: Option<&str>,
    limit: Option<i64>,
    file_path: Option<&str>,
) -> (r: Vec<ProjectFile>)
    ensures
        listed_desc(r@),
        r@.to_multiset() == fetched(files@, opt_text(id), opt_int(limit), opt_text(file_path)).to_multiset(),
{
    sort_listing(&files.fetch(id, limit, file_path))
}

/// The scripts that match, most recently used first.
pub fn fetch_python_scripts(
    scripts: &Table<PythonScript>,
    id: Option<&str>,
    limit: Option<i64>,
    script_file_path: Option<&str>,
) -> (r: Vec<PythonScript>)
    ensures
        listed_desc(r@),
        r@.to_multiset() == fetched(
            scripts@,
            opt_text(id),
            opt_int(limit),
            opt_text(script_file_path),
        ).to_multiset(),
{
    sort_listing(&scripts.fetch(id, limit, script_file_path))
}

impl Listed for InstalledBlenderVersion {
    open spec fn order_of(&self) -> Seq<char> {
        self.version@
    }

    fn order(&self) -> (r: &String) {
        &self.version
    }
}

impl Listed for LaunchArgument {
    open spec fn order_of(&self) -> Seq<char> {
        self.accessed@
    }

    fn order(&self) -> (r: &String) {
        &self.accessed
    }
}

impl Listed for ProjectFile {
    open spec fn order_of(&self) -> Seq<char> {
        self.accessed@
    }

    fn order(&self) -> (r: &String) {
        &self.accessed
    }
}

impl Listed for PythonScript {
    open spec fn order_of(&self) -> Seq<char> {
        self.accessed@
    }

    fn order(&self) -> (r: &String) {
        &self.accessed
    }
}

} // verus!
