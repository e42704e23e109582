use vstd::prelude::*;

use crate::clock::{current_timestamp, new_record_ids};
use crate::error::CommandError;
use crate::model::InstalledBlenderVersion;
use crate::table::{
    unique_ids, unique_keys,
    has_id, has_key, ids_of, key_absent, key_present, lemma_filter_all, lemma_filter_ext,
    lemma_filter_none, Record, StoreError, Table,
};
use crate::text::texts;

verus! {

/// The launcher that marks a directory as an installed build.
pub const LAUNCHER_FILE_NAME: &'static str = "blender-launcher.exe";

/// What a build directory's name holds: version and variant.
pub const VERSION_PATTERN: &'static str = r"blender-(?P<version>\d+\.\d+(?:\.\d+)?)-(?P<variant>[^\-+]+)";

#[verifier::external_type_specification]
#[verifier::external_body]
pub struct ExRegexError(regex::Error);

/// The text of the capture group named `group` in the leftmost match of the
/// regular expression `pattern` in `hay`, if there is a match.
pub uninterp spec fn regex_group(pattern: Seq<char>, hay: Seq<char>, group: Seq<char>) -> Option<
    Seq<char>,
>;

/// Relies on regex::Regex::new (compiles `pattern` or returns its error;
/// it fails only on a syntax error or a pattern over the size limit, and
/// the directory-name pattern is neither), Regex::captures (the leftmost
/// match) and Captures::name (a named group's text).
#[verifier::external_body]
fn capture_group(pattern: &str, hay: &str, group: &str) -> (r: Result<Option<String>, regex::Error>)
    ensures
        pattern@ == VERSION_PATTERN@ ==> r is Ok,
        r matches Ok(o) ==> match o {
            Some(t) => regex_group(pattern@, hay@, group@) == Some(t@),
            None => regex_group(pattern@, hay@, group@) is None,
        },
{
    let re = regex::Regex::new(pattern)?;
    match re.captures(hay) {
        Some(c) => match c.name(group) {
            Some(m) => Ok(Some(m.as_str().to_string())),
            None => Ok(None),
        },
        None => Ok(None),
    }
}

/// A group's text, or the empty text where the pattern did not match.
pub open spec fn group_text(o: Option<Seq<char>>) -> Seq<char> {
    match o {
        Some(t) => t,
        None => Seq::empty(),
    }
}

pub open spec fn parsed_version(name: Seq<char>) -> Seq<char> {
    group_text(regex_group(VERSION_PATTERN@, name, "version"@))
}

pub open spec fn parsed_variant(name: Seq<char>) -> Seq<char> {
    group_text(regex_group(VERSION_PATTERN@, name, "variant"@))
}

fn group_or_empty(hay: &str, group: &str) -> (r: String)
    ensures
        r@ == group_text(regex_group(VERSION_PATTERN@, hay@, group@)),
{
    match capture_group(VERSION_PATTERN, hay, group) {
        Ok(Some(t)) => t,
        Ok(None) => String::new(),
        Err(_) => String::new(),
    }
}

/// Version and variant read from a build directory's name; a name that does
/// not match the pattern gives two empty strings.
pub fn parse_version_and_variant(directory_name: &str) -> (r: (String, String))
    ensures
        r.0@ == parsed_version(directory_name@),
        r.1@ == parsed_variant(directory_name@),
{
    let version = group_or_empty(directory_name, "version");
    let variant = group_or_empty(directory_name, "variant");
    (version, variant)
}

/// A subdirectory of an installation root that holds the launcher.
pub struct LauncherCandidate {
    pub directory_path: String,
    pub directory_name: String,
    pub executable_file_path: String,
}

/// Whether `r` is the row registered for candidate `c` under `id` at `now`.
pub open spec fn is_discovered_build(
    r: InstalledBlenderVersion,
    c: LauncherCandidate,
    id: Seq<char>,
    now: Seq<char>,
) -> bool {
    &&& r.id@ == id
    &&& r.version@ == parsed_version(c.directory_name@)
    &&& r.variant_type@ == parsed_variant(c.directory_name@)
    &&& r.download_url is None
    &&& !r.is_default
    &&& r.installation_directory_path@ == c.directory_path@
    &&& r.executable_file_path@ == c.executable_file_path@
    &&& r.created@ == now
    &&& r.modified@ == now
    &&& r.accessed@ == now
}

/// Registers the build of candidate `c` under `id`; a build already
/// registered with its executable path makes this a no-op.
pub fn insert_installed_blender_version(
    builds: &mut Table<InstalledBlenderVersion>,
    c: &LauncherCandidate,
    id: &String,
    now: &String,
) -> (r: Result<(), CommandError>)
    requires
        old(builds).wf(),
    ensures
        final(builds).wf(),
        r is Err ==> final(builds)@ == old(builds)@,
        r is Err <==> !has_key(old(builds)@, c.executable_file_path@) && has_id(old(builds)@, id@),
        r matches Err(e) ==> e == CommandError::Storage(StoreError::DuplicateId),
        r is Ok && has_key(old(builds)@, c.executable_file_path@) ==> final(builds)@ == old(builds)@,
        r is Ok && !has_key(old(builds)@, c.executable_file_path@) ==> {
            &&& final(builds)@.len() == old(builds)@.len() + 1
            &&& final(builds)@.drop_last() == old(builds)@
            &&& is_discovered_build(final(builds)@.last(), *c, id@, now@)
        },
{
    let (version, variant_type) = parse_version_and_variant(&c.directory_name);
    let entry = InstalledBlenderVersion {
        id: id.clone(),
        version,
        variant_type,
        download_url: None,
        is_default: false,
        installation_directory_path: c.directory_path.clone(),
        executable_file_path: c.executable_file_path.clone(),
        created: now.clone(),
        modified: now.clone(),
        accessed: now.clone(),
    };
    let ghost s = builds@;
    match builds.insert(entry) {
        Ok(_) => {
            proof {
                if !has_key(s, c.executable_file_path@) {
                    assert(builds@.drop_last() =~= s);
                }
            }
            Ok(())
        },
        Err(e) => Err(CommandError::Storage(e)),
    }
}

/// The indices of the candidates that a refresh registers: those whose
/// executable path neither a row of `s` nor an earlier registered candidate holds.
pub open spec fn fresh_indices(s: Seq<InstalledBlenderVersion>, found: Seq<LauncherCandidate>) -> Seq<
    int,
>
    decreases found.len(),
{
    if found.len() == 0 {
        Seq::empty()
    } else {
        let p = fresh_indices(s, found.drop_last());
        let x = found.last().executable_file_path@;
        if has_key(s, x) || exists|j: int| 0 <= j < p.len() && found[p[j]].executable_file_path@ == x {
            p
        } else {
            p.push(found.len() - 1)
        }
    }
}

/// Whether a build's executable is still on disk, given the paths found missing.
pub open spec fn on_disk(missing: Seq<Seq<char>>) -> spec_fn(InstalledBlenderVersion) -> bool {
    |r: InstalledBlenderVersion| !missing.contains(r.executable_file_path@)
}

pub open spec fn off_disk(missing: Seq<Seq<char>>) -> spec_fn(InstalledBlenderVersion) -> bool {
    |r: InstalledBlenderVersion| missing.contains(r.executable_file_path@)
}

/// Whether `added` holds the rows that a refresh registers for the fresh
/// candidates of `found` over `s`, in order, with identifiers from `ids`.
pub open spec fn registers(
    added: Seq<InstalledBlenderVersion>,
    s: Seq<InstalledBlenderVersion>,
    found: Seq<LauncherCandidate>,
    ids: Seq<String>,
    now: Seq<char>,
) -> bool {
    let fresh = fresh_indices(s, found);
    &&& added.len() == fresh.len()
    &&& forall|j: int|
        0 <= j < added.len() ==> is_discovered_build(
            #[trigger] added[j],
            found[fresh[j]],
            ids[fresh[j]]@,
            now,
        )
}

/// Whether the identifiers for new rows are pairwise distinct and unused in `s`.
pub open spec fn ids_fresh(s: Seq<InstalledBlenderVersion>, ids: Seq<String>) -> bool {
    &&& forall|i: int, j: int| 0 <= i < j < ids.len() ==> ids[i]@ != ids[j]@
    &&& forall|i: int| 0 <= i < ids.len() ==> !has_id(s, #[trigger] ids[i]@)
}

/// What a refresh wrote: the rows it registered and the identifiers of the
/// rows it removed.
pub struct RefreshReport {
    pub inserted: Vec<InstalledBlenderVersion>,
    pub removed: Vec<String>,
}

/// The identifiers of a sequence of builds.
pub open spec fn build_ids(s: Seq<InstalledBlenderVersion>) -> Seq<Seq<char>> {
    s.map_values(|b: InstalledBlenderVersion| b.id@)
}

proof fn lemma_fresh_bounds(s: Seq<InstalledBlenderVersion>, found: Seq<LauncherCandidate>)
    ensures
        forall|j: int|
            0 <= j < fresh_indices(s, found).len() ==> 0 <= #[trigger] fresh_indices(s, found)[j]
                < found.len(),
    decreases found.len(),
{
    if found.len() > 0 {
        let p = fresh_indices(s, found.drop_last());
        lemma_fresh_bounds(s, found.drop_last());
        assert(fresh_indices(s, found) == p || fresh_indices(s, found) == p.push(found.len() - 1));
    }
}

proof fn lemma_fresh_monotone(s: Seq<InstalledBlenderVersion>, found: Seq<LauncherCandidate>, k: int)
    requires
        0 <= k <= found.len(),
    ensures
        fresh_indices(s, found.take(k)).len() <= fresh_indices(s, found).len(),
    decreases found.len(),
{
    if k == found.len() {
        assert(found.take(k) =~= found);
    } else {
        assert(found.take(k) =~= found.drop_last().take(k));
        lemma_fresh_monotone(s, found.drop_last(), k);
    }
}

/// The first phase of a refresh: registers the fresh candidates.
fn register_candidates(
    builds: &mut Table<InstalledBlenderVersion>,
    found: &Vec<LauncherCandidate>,
    ids: &Vec<String>,
    now: &String,
) -> (r: Result<Vec<InstalledBlenderVersion>, CommandError>)
    requires
        old(builds).wf(),
        ids@.len() == found@.len(),
    ensures
        final(builds).wf(),
        r matches Ok(added) ==> registers(added@, old(builds)@, found@, ids@, now@) && final(builds)@ == old(builds)@ + added@,
        r matches Err(e) ==> e == CommandError::Storage(StoreError::DuplicateId) && !ids_fresh(
            old(builds)@,
            ids@,
        ),
        fresh_indices(old(builds)@, found@).len() == 0 ==> r is Ok,
{
    let ghost s = builds@;
    let mut added: Vec<InstalledBlenderVersion> = Vec::new();
    let mut k: usize = 0;
    while k < found.len()
        invariant
            builds.wf(),
            s == old(builds)@,
            ids@.len() == found@.len(),
            k <= found@.len(),
            builds@ == s + added@,
            registers(added@, s, found@.take(k as int), ids@, now@),
            forall|j: int|
                0 <= j < fresh_indices(s, found@.take(k as int)).len() ==> 0 <= #[trigger] fresh_indices(
                    s,
                    found@.take(k as int),
                )[j] < k,
            fresh_indices(s, found@).len() == 0 ==> added@.len() == 0,
        decreases found.len() - k,
    {
        let ghost f = found@.take(k as int);
        let ghost f1 = found@.take(k + 1);
        let ghost p = fresh_indices(s, f);
        proof {
            assert(f1.drop_last() =~= f);
        }
        let c = &found[k];
        if !builds.contains_key(&c.executable_file_path) {
            let ghost before = builds@;
            proof {
                let x = c.executable_file_path@;
                assert(!has_key(s, x)) by {
                    if has_key(s, x) {
                        let i = choose|i: int| 0 <= i < s.len() && s[i].key_of() == x;
                        assert(before[i] == s[i]);
                    }
                }
                assert forall|j: int| 0 <= j < p.len() implies f1[p[j]].executable_file_path@ != x by {
                    assert(before[s.len() + j] == added@[j]);
                    assert(f1[p[j]] == f[p[j]]);
                }
                assert(fresh_indices(s, f1) == p.push(k as int));
            }
            match insert_installed_blender_version(builds, c, &ids[k], now) {
                Ok(()) => {},
                Err(e) => {
                    proof {
                        lemma_fresh_monotone(s, found@, k + 1);
                        assert(fresh_indices(s, f1).len() > 0);
                        assert(fresh_indices(s, found@).len() > 0);
                        {
                            let i = choose|i: int|
                                0 <= i < before.len() && before[i].id_of() == ids@[k as int]@;
                            if i < s.len() {
                                assert(s[i] == before[i]);
                                assert(has_id(s, ids@[k as int]@));
                                assert(!ids_fresh(s, ids@));
                                assert(e == CommandError::Storage(StoreError::DuplicateId));
                            } else {
                                let j = i - s.len();
                                assert(before[i] == added@[j]);
                                assert(is_discovered_build(added@[j], f[p[j]], ids@[p[j]]@, now@));
                                assert(ids@[p[j]]@ == ids@[k as int]@);
                                assert(0 <= p[j] < k);
                                assert(!ids_fresh(s, ids@));
                            }
                        }
                    }
                    return Err(e);
                },
            }
            let row = builds.row(builds.len() - 1).duplicate();
            added.push(row);
            proof {
                assert(builds@ =~= before.push(builds@.last()));
                assert(builds@ =~= s + added@);
                assert forall|j: int| 0 <= j < added@.len() implies is_discovered_build(
                    #[trigger] added@[j],
                    f1[fresh_indices(s, f1)[j]],
                    ids@[fresh_indices(s, f1)[j]]@,
                    now@,
                ) by {
                    if j < added@.len() - 1 {
                        assert(f1[p[j]] == f[p[j]]);
                    }
                }
            }
        } else {
            proof {
                let x = c.executable_file_path@;
                let i = choose|i: int| 0 <= i < builds@.len() && builds@[i].key_of() == x;
                if i >= s.len() {
                    let j = i - s.len();
                    assert(builds@[i] == added@[j]);
                    assert(f1[p[j]] == f[p[j]]);
                } else {
                    assert(s[i] == builds@[i]);
                }
                assert(fresh_indices(s, f1) == p);
                assert forall|j: int| 0 <= j < added@.len() implies is_discovered_build(
                    #[trigger] added@[j],
                    f1[fresh_indices(s, f1)[j]],
                    ids@[fresh_indices(s, f1)[j]]@,
                    now@,
                ) by {
                    assert(f1[p[j]] == f[p[j]]);
                }
            }
        }
        proof {
            lemma_fresh_monotone(s, found@, k + 1);
        }
        k += 1;
    }
    proof {
        assert(found@.take(found@.len() as int) =~= found@);
    }
    Ok(added)
}

/// The second phase of a refresh: removes the builds whose executable is
/// among `missing`, and gives their identifiers.
fn prune_missing(builds: &mut Table<InstalledBlenderVersion>, missing: &Vec<String>) -> (r: Vec<
    String,
>)
    requires
        old(builds).wf(),
    ensures
        final(builds).wf(),
        final(builds)@ == old(builds)@.filter(on_disk(texts(missing@))),
        texts(r@) == build_ids(old(builds)@.filter(off_disk(texts(missing@)))),
{
    let ghost t = builds@;
    let removed = builds.remove_keys(missing);
    proof {
        lemma_filter_ext(t, key_absent(texts(missing@)), on_disk(texts(missing@)));
        lemma_filter_ext(t, key_present(texts(missing@)), off_disk(texts(missing@)));
        assert(ids_of(t.filter(off_disk(texts(missing@)))) =~= build_ids(
            t.filter(off_disk(texts(missing@))),
        ));
    }
    removed
}

/// Registers every candidate whose executable path is not yet registered,
/// then removes every build whose executable path is among `missing`.
/// Candidate `k` takes identifier `ids[k]`.
pub fn refresh_installed_blender_versions(
    builds: &mut Table<InstalledBlenderVersion>,
    found: &Vec<LauncherCandidate>,
    ids: &Vec<String>,
    missing: &Vec<String>,
    now: &String,
) -> (r: Result<RefreshReport, CommandError>)
    requires
        old(builds).wf(),
        ids@.len() == found@.len(),
    ensures
        final(builds).wf(),
        r matches Ok(rep) ==> {
            &&& registers(rep.inserted@, old(builds)@, found@, ids@, now@)
            &&& unique_ids(old(builds)@ + rep.inserted@)
            &&& unique_keys(old(builds)@ + rep.inserted@)
            &&& final(builds)@ == (old(builds)@ + rep.inserted@).filter(on_disk(texts(missing@)))
            &&& texts(rep.removed@) == build_ids(
                (old(builds)@ + rep.inserted@).filter(off_disk(texts(missing@))),
            )
        },
        r matches Err(e) ==> e == CommandError::Storage(StoreError::DuplicateId),
        r is Err ==> !ids_fresh(old(builds)@, ids@),
        ids_fresh(old(builds)@, ids@) ==> r is Ok,
        fresh_indices(old(builds)@, found@).len() == 0 ==> r is Ok,
{
    let inserted = register_candidates(builds, found, ids, now)?;
    let removed = prune_missing(builds, missing);
    Ok(RefreshReport { inserted, removed })
}

/// A refresh with random identifiers and the current time: what
/// `refresh_installed_blender_versions` states holds for some identifiers
/// and some time. The identifiers that the new rows took are unused before,
/// so the only failure is a collision of random identifiers.
pub fn insert_and_refresh_installed_blender_versions(
    builds: &mut Table<InstalledBlenderVersion>,
    found: &Vec<LauncherCandidate>,
    missing: &Vec<String>,
) -> (r: Result<RefreshReport, CommandError>)
    requires
        old(builds).wf(),
    ensures
        final(builds).wf(),
        r matches Ok(rep) ==> {
            &&& exists|ids: Seq<String>, now: Seq<char>|
                ids.len() == found@.len() && registers(rep.inserted@, old(builds)@, found@, ids, now)
            &&& unique_ids(old(builds)@ + rep.inserted@)
            &&& unique_keys(old(builds)@ + rep.inserted@)
            &&& final(builds)@ == (old(builds)@ + rep.inserted@).filter(on_disk(texts(missing@)))
            &&& texts(rep.removed@) == build_ids(
                (old(builds)@ + rep.inserted@).filter(off_disk(texts(missing@))),
            )
        },
        r matches Err(e) ==> e == CommandError::Storage(StoreError::DuplicateId),
        fresh_indices(old(builds)@, found@).len() == 0 ==> r is Ok,
{
    let ids = new_record_ids(found.len());
    let now = current_timestamp();
    refresh_installed_blender_versions(builds, found, &ids, missing, &now)
}

/// A refresh removes exactly the orphans: a registered build stays if and
/// only if its executable is not among the missing paths.
pub proof fn lemma_refresh_prunes_only_orphans(
    t: Seq<InstalledBlenderVersion>,
    missing: Seq<Seq<char>>,
    b: InstalledBlenderVersion,
)
    requires
        t.contains(b),
    ensures
        t.filter(on_disk(missing)).contains(b) <==> !missing.contains(b.executable_file_path@),
{
    if t.filter(on_disk(missing)).contains(b) {
        let i = choose|i: int| 0 <= i < t.filter(on_disk(missing)).len() && t.filter(on_disk(missing))[i] == b;
        t.lemma_filter_pred(on_disk(missing), i);
    }
    if !missing.contains(b.executable_file_path@) {
        let i = choose|i: int| 0 <= i < t.len() && t[i] == b;
        t.lemma_filter_contains(on_disk(missing), i);
    }
}

proof fn lemma_fresh_covers(s: Seq<InstalledBlenderVersion>, found: Seq<LauncherCandidate>)
    ensures
        forall|k: int|
            0 <= k < found.len() ==> has_key(s, #[trigger] found[k].executable_file_path@) || exists|j: int|
                0 <= j < fresh_indices(s, found).len() && found[fresh_indices(s, found)[j]].executable_file_path@
                    == found[k].executable_file_path@,
    decreases found.len(),
{
    if found.len() > 0 {
        let d = found.drop_last();
        let p = fresh_indices(s, d);
        lemma_fresh_covers(s, d);
        lemma_fresh_bounds(s, d);
        let f = fresh_indices(s, found);
        assert(f == p || f == p.push(found.len() - 1));
        assert forall|k: int| 0 <= k < found.len() implies has_key(
            s,
            #[trigger] found[k].executable_file_path@,
        ) || exists|j: int|
            0 <= j < f.len() && found[f[j]].executable_file_path@ == found[k].executable_file_path@ by {
            if k < d.len() {
                assert(d[k] == found[k]);
                if !has_key(s, found[k].executable_file_path@) {
                    let j = choose|j: int|
                        0 <= j < p.len() && d[p[j]].executable_file_path@ == d[k].executable_file_path@;
                    assert(f[j] == p[j]);
                    assert(d[p[j]] == found[p[j]]);
                }
            } else if !has_key(s, found[k].executable_file_path@) && f == p {
                let j = choose|j: int|
                    0 <= j < p.len() && found[p[j]].executable_file_path@ == found[k].executable_file_path@;
                assert(f[j] == p[j]);
            } else if f != p {
                assert(f[p.len() as int] == k);
            }
        }
    }
}

proof fn lemma_nothing_fresh(t: Seq<InstalledBlenderVersion>, found: Seq<LauncherCandidate>)
    requires
        forall|k: int| 0 <= k < found.len() ==> has_key(t, #[trigger] found[k].executable_file_path@),
    ensures
        fresh_indices(t, found).len() == 0,
    decreases found.len(),
{
    if found.len() > 0 {
        let d = found.drop_last();
        assert forall|k: int| 0 <= k < d.len() implies has_key(t, #[trigger] d[k].executable_file_path@) by {
            assert(d[k] == found[k]);
        }
        lemma_nothing_fresh(t, d);
        assert(has_key(t, found[found.len() - 1].executable_file_path@));
    }
}

/// One refresh settles discovery: run again over the same candidates and
/// with the same paths missing (none of them a candidate's launcher), a
/// refresh registers nothing and removes nothing.
pub proof fn lemma_refresh_settles(
    s: Seq<InstalledBlenderVersion>,
    found: Seq<LauncherCandidate>,
    ids: Seq<String>,
    missing: Seq<Seq<char>>,
    now: Seq<char>,
    added: Seq<InstalledBlenderVersion>,
)
    requires
        registers(added, s, found, ids, now),
        forall|k: int| 0 <= k < found.len() ==> !missing.contains(#[trigger] found[k].executable_file_path@),
    ensures
        fresh_indices((s + added).filter(on_disk(missing)), found).len() == 0,
        (s + added).filter(on_disk(missing)).filter(on_disk(missing)) == (s + added).filter(
            on_disk(missing),
        ),
        (s + added).filter(on_disk(missing)).filter(off_disk(missing)).len() == 0,
{
    let u = s + added;
    let t = u.filter(on_disk(missing));
    let f = fresh_indices(s, found);
    lemma_fresh_covers(s, found);
    lemma_fresh_bounds(s, found);
    assert forall|k: int| 0 <= k < found.len() implies has_key(t, #[trigger] found[k].executable_file_path@) by {
        let x = found[k].executable_file_path@;
        let i: int = if has_key(s, x) {
            choose|i: int| 0 <= i < s.len() && s[i].key_of() == x
        } else {
            let j = choose|j: int| 0 <= j < f.len() && found[f[j]].executable_file_path@ == x;
            assert(is_discovered_build(added[j], found[f[j]], ids[f[j]]@, now));
            s.len() + j
        };
        assert(u[i].executable_file_path@ == x);
        u.lemma_filter_contains(on_disk(missing), i);
        let m = choose|m: int| 0 <= m < t.len() && t[m] == u[i];
        assert(t[m].key_of() == x);
    }
    lemma_nothing_fresh(t, found);
    assert forall|i: int| 0 <= i < t.len() implies on_disk(missing)(#[trigger] t[i]) by {
        u.lemma_filter_pred(on_disk(missing), i);
    }
    lemma_filter_all(t, on_disk(missing));
    lemma_filter_none(t, off_disk(missing));
}

} // verus!
