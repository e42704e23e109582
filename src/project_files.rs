use vstd::prelude::*;
use vstd::string::StringExecFns;

use crate::error::CommandError;
use crate::model::ProjectFile;
use crate::table::{has_id, has_key, ids_of, key_absent, key_present, lemma_filter_all, lemma_filter_ext, Record, StoreError, Table};
use crate::text::{holds_text, sort_texts, texts, texts_sorted};

verus! {

#[verifier::external_type_specification]
#[verifier::external_body]
pub struct ExJsonError(serde_json::Error);

/// The JSON text of a list of strings.
pub uninterp spec fn series_json(v: Seq<Seq<char>>) -> Seq<char>;

/// The list of strings that a JSON text holds, where it holds one.
pub uninterp spec fn series_of_json(s: Seq<char>) -> Option<Seq<Seq<char>>>;

/// Relies on serde_json::to_string: the JSON text of a list of strings. It
/// fails only where a `Serialize` impl fails or a map has non-string keys,
/// neither of which a list of strings has; serde_json::from_str reads the
/// text back as the same list.
#[verifier::external_body]
fn encode_series(v: &Vec<String>) -> (r: Result<String, serde_json::Error>)
    ensures
        r is Ok,
        r matches Ok(t) ==> t@ == series_json(texts(v@)),
        r matches Ok(t) ==> series_of_json(t@) == Some(texts(v@)),
{
    serde_json::to_string(v)
}

/// Relies on serde_json::from_str: reads a JSON list of strings, and fails
/// on any other text.
#[verifier::external_body]
fn decode_series(s: &str) -> (r: Result<Vec<String>, serde_json::Error>)
    ensures
        r matches Ok(v) ==> series_of_json(s@) == Some(texts(v@)),
        r is Err ==> series_of_json(s@) is None,
{
    serde_json::from_str::<Vec<String>>(s)
}

fn series_text(v: &Vec<String>) -> (r: String)
    ensures
        r@ == series_json(texts(v@)),
        series_of_json(r@) == Some(texts(v@)),
{
    match encode_series(v) {
        Ok(t) => t,
        Err(_) => String::new(),
    }
}

/// A series list with `series` added: `None` where it holds it already,
/// else the list and `series`, sorted.
pub fn merge_series(list: &Vec<String>, series: &str) -> (r: Option<Vec<String>>)
    ensures
        r is None <==> texts(list@).contains(series@),
        r matches Some(v) ==> texts_sorted(texts(v@)) && texts(v@).to_multiset() == texts(
            list@,
        ).push(series@).to_multiset(),
{
    let name: String = series.to_owned();
    if holds_text(list, &name) {
        return None;
    }
    let mut all: Vec<String> = list.clone();
    all.push(name);
    proof {
        assert(texts(all@) =~= texts(list@).push(series@));
    }
    Some(sort_texts(&all))
}

/// One line of a category's recent-files list: the path, whether the file
/// is on disk, and its file name where the path has one.
pub struct ManifestEntry {
    pub file_path: String,
    pub exists: bool,
    pub file_name: Option<String>,
}

/// Whether `r` is the row listed for `entry` under `series`, with `id` at `now`.
pub open spec fn is_listed_file(
    r: ProjectFile,
    entry: ManifestEntry,
    series: Seq<char>,
    id: Seq<char>,
    now: Seq<char>,
) -> bool {
    &&& r.id@ == id
    &&& r.file_path == entry.file_path
    &&& entry.file_name matches Some(n) && r.file_name == n
    &&& r.associated_series_json@ == series_json(seq![series])
    &&& series_of_json(r.associated_series_json@) == Some(seq![series])
    &&& r.last_used_blender_version_id is None
    &&& r.created@ == now
    &&& r.modified@ == now
    &&& r.accessed@ == now
}

/// Whether `r` is the stored row `prev` with its series list `m`, at `now`.
pub open spec fn is_retagged_file(r: ProjectFile, prev: ProjectFile, m: Seq<Seq<char>>, now: Seq<char>) -> bool {
    &&& r.id == prev.id
    &&& r.file_path == prev.file_path
    &&& r.file_name == prev.file_name
    &&& r.associated_series_json@ == series_json(m)
    &&& series_of_json(r.associated_series_json@) == Some(m)
    &&& r.last_used_blender_version_id == prev.last_used_blender_version_id
    &&& r.created == prev.created
    &&& r.modified@ == now
    &&& r.accessed@ == now
}

/// The row of `s` that holds the path `p`, where one does.
pub open spec fn file_with_path(s: Seq<ProjectFile>, p: Seq<char>) -> ProjectFile {
    choose|r: ProjectFile| s.contains(r) && r.file_path@ == p
}

proof fn lemma_file_with_path(s: Seq<ProjectFile>, i: int)
    requires
        crate::table::unique_keys(s),
        0 <= i < s.len(),
    ensures
        file_with_path(s, s[i].file_path@) == s[i],
{
    assert(s.contains(s[i]));
    let c = file_with_path(s, s[i].file_path@);
    let j = choose|j: int| 0 <= j < s.len() && s[j] == c;
    if j != i {
        assert(s[j].key_of() == s[i].key_of());
    }
}

/// Whether `t` is `s` after the line `entry` of the category `series` was
/// reconciled, with `id` for a new row, at `now`: a file off disk loses its
/// row; a file on disk without a row gets one tagged `series`; a file with a
/// row whose series list lacks `series` has it added, the list sorted.
pub open spec fn entry_reconciled(
    t: Seq<ProjectFile>,
    s: Seq<ProjectFile>,
    series: Seq<char>,
    entry: ManifestEntry,
    id: Seq<char>,
    now: Seq<char>,
) -> bool {
    if !entry.exists {
        t == s.filter(|f: ProjectFile| f.file_path@ != entry.file_path@)
    } else if !has_key(s, entry.file_path@) {
        &&& t.len() == s.len() + 1
        &&& t.drop_last() == s
        &&& is_listed_file(t.last(), entry, series, id, now)
    } else {
        match series_of_json(file_with_path(s, entry.file_path@).associated_series_json@) {
            None => false,
            Some(l) => if l.contains(series) {
                t == s
            } else {
                &&& t.len() == s.len()
                &&& exists|m: Seq<Seq<char>>|
                    texts_sorted(m) && m.to_multiset() == l.push(series).to_multiset() && forall|
                        i: int,
                    |
                        0 <= i < s.len() ==> if s[i].file_path@ == entry.file_path@ {
                            is_retagged_file(t[i], s[i], m, now)
                        } else {
                            t[i] == s[i]
                        }
            },
        }
    }
}

/// The error that reconciling the line `entry` over `s`, with `id` for a
/// new row, comes to, if any: a new file without a file name, an identifier
/// in use, or a stored series list that is not a JSON list of strings.
pub open spec fn entry_error(s: Seq<ProjectFile>, entry: ManifestEntry, id: Seq<char>) -> Option<
    CommandError,
> {
    if !entry.exists {
        None
    } else if !has_key(s, entry.file_path@) {
        if entry.file_name is None {
            Some(CommandError::NoFileName)
        } else if has_id(s, id) {
            Some(CommandError::Storage(StoreError::DuplicateId))
        } else {
            None
        }
    } else if series_of_json(file_with_path(s, entry.file_path@).associated_series_json@) is None {
        Some(CommandError::InvalidSeriesList)
    } else {
        None
    }
}

/// Brings the store in line with one line of the category `series`: a file
/// no longer on disk loses its row and its line (`Ok(false)`); a file on disk
/// keeps its line (`Ok(true)`) and gets a row under `id`, or, where it has
/// one, `series` added to its series list.
pub fn reconcile_manifest_entry(
    files: &mut Table<ProjectFile>,
    series: &str,
    entry: &ManifestEntry,
    id: &String,
    now: &String,
) -> (r: Result<bool, CommandError>)
    requires
        old(files).wf(),
    ensures
        final(files).wf(),
        r is Err ==> final(files)@ == old(files)@,
        r matches Ok(keep) ==> keep == entry.exists && entry_reconciled(
            final(files)@,
            old(files)@,
            series@,
            *entry,
            id@,
            now@,
        ),
        match entry_error(old(files)@, *entry, id@) {
            Some(e) => r == Err::<bool, CommandError>(e),
            None => r == Ok::<bool, CommandError>(entry.exists),
        },
{
    let ghost s = files@;
    let found = files.get_by_key(&entry.file_path);
    if !entry.exists {
        match found {
            Some(prev) => {
                files.delete(&prev.id);
                proof {
                    let i = choose|i: int| 0 <= i < s.len() && s[i] == prev;
                    assert forall|j: int| 0 <= j < s.len() implies (s[j].id_of() != prev.id@) == (
                    s[j].file_path@ != entry.file_path@) by {
                        if j < i {
                            assert(s[j].key_of() != s[i].key_of());
                            assert(s[j].id_of() != s[i].id_of());
                        } else if j > i {
                            assert(s[i].key_of() != s[j].key_of());
                            assert(s[i].id_of() != s[j].id_of());
                        }
                    }
                    lemma_filter_ext(
                        s,
                        |f: ProjectFile| f.id_of() != prev.id@,
                        |f: ProjectFile| f.file_path@ != entry.file_path@,
                    );
                }
            },
            None => {
                proof {
                    assert forall|i: int| 0 <= i < s.len() implies (|f: ProjectFile|
                        f.file_path@ != entry.file_path@)(#[trigger] s[i]) by {
                        assert(s[i].key_of() != entry.file_path@);
                    }
                    lemma_filter_all(s, |f: ProjectFile| f.file_path@ != entry.file_path@);
                }
            },
        }
        return Ok(false);
    }
    match found {
        None => {
            let name = match &entry.file_name {
                Some(n) => n.clone(),
                None => return Err(CommandError::NoFileName),
            };
            let mut one: Vec<String> = Vec::new();
            one.push(series.to_owned());
            proof {
                assert(texts(one@) =~= seq![series@]);
            }
            let json = series_text(&one);
            let row = ProjectFile {
                id: id.clone(),
                file_path: entry.file_path.clone(),
                file_name: name,
                associated_series_json: json,
                last_used_blender_version_id: None,
                created: now.clone(),
                modified: now.clone(),
                accessed: now.clone(),
            };
            match files.insert(row) {
                Ok(_) => {
                    assert(files@.drop_last() =~= s);
                    Ok(true)
                },
                Err(e) => Err(CommandError::Storage(e)),
            }
        },
        Some(prev) => {
            proof {
                let i = choose|i: int| 0 <= i < s.len() && s[i] == prev;
                lemma_file_with_path(s, i);
            }
            let list = match decode_series(&prev.associated_series_json) {
                Ok(l) => l,
                Err(_) => return Err(CommandError::InvalidSeriesList),
            };
            let merged = match merge_series(&list, series) {
                None => return Ok(true),
                Some(m) => m,
            };
            let json = series_text(&merged);
            let e = ProjectFile {
                id: prev.id.clone(),
                file_path: prev.file_path.clone(),
                file_name: prev.file_name.clone(),
                associated_series_json: json,
                last_used_blender_version_id: prev.last_used_blender_version_id.clone(),
                created: prev.created.clone(),
                modified: prev.modified.clone(),
                accessed: prev.accessed.clone(),
            };
            proof {
                let i = choose|i: int| 0 <= i < s.len() && s[i] == prev;
                assert forall|j: int| 0 <= j < s.len() && s[j].id_of() != e.id_of() implies s[j].key_of()
                    != e.key_of() by {
                    if j < i {
                        assert(s[j].key_of() != s[i].key_of());
                    } else if j > i {
                        assert(s[i].key_of() != s[j].key_of());
                    }
                }
                assert forall|j: int| 0 <= j < s.len() implies (s[j].file_path@ == entry.file_path@)
                    == (s[j].id_of() == e.id_of()) by {
                    if j < i {
                        assert(s[j].key_of() != s[i].key_of());
                        assert(s[j].id_of() != s[i].id_of());
                    } else if j > i {
                        assert(s[i].key_of() != s[j].key_of());
                        assert(s[i].id_of() != s[j].id_of());
                    }
                }
            }
            let _ = files.update(&e, now);
            proof {
                let m = texts(merged@);
                assert(texts_sorted(m));
            }
            Ok(true)
        },
    }
}

/// The rewritten recent-files list: the path of each line whose file is on
/// disk, each followed by a line break.
pub open spec fn manifest_text(entries: Seq<ManifestEntry>) -> Seq<char>
    decreases entries.len(),
{
    if entries.len() == 0 {
        Seq::empty()
    } else {
        let prev = manifest_text(entries.drop_last());
        if entries.last().exists {
            prev + entries.last().file_path@ + seq!['\n']
        } else {
            prev
        }
    }
}

/// Whether every row of `t` is a row of `s` or holds a series list that
/// reads as one.
pub open spec fn kept_or_readable(t: Seq<ProjectFile>, s: Seq<ProjectFile>) -> bool {
    forall|i: int|
        0 <= i < t.len() ==> s.contains(#[trigger] t[i]) || series_of_json(
            t[i].associated_series_json@,
        ) is Some
}

/// Whether every row of `t` has the identifier of a row of `s` or one of `ids`.
pub open spec fn ids_known(t: Seq<ProjectFile>, s: Seq<ProjectFile>, ids: Seq<Seq<char>>) -> bool {
    forall|i: int| 0 <= i < t.len() ==> has_id(s, #[trigger] t[i].id@) || ids.contains(t[i].id@)
}

/// Whether reconciling the lines `entries` over `s`, with `ids` for new
/// rows, is owed success: every file on disk has a file name, the
/// identifiers are unused and pairwise distinct, and every stored row that a
/// line on disk names holds a series list that reads as one.
pub open spec fn category_ok(s: Seq<ProjectFile>, entries: Seq<ManifestEntry>, ids: Seq<Seq<char>>) -> bool {
    &&& forall|k: int|
        0 <= k < entries.len() && (#[trigger] entries[k]).exists ==> entries[k].file_name is Some
    &&& forall|k: int| 0 <= k < ids.len() ==> !has_id(s, #[trigger] ids[k])
    &&& forall|j: int, k: int| 0 <= j < k < ids.len() ==> ids[j] != ids[k]
    &&& forall|i: int, k: int|
        #![trigger s[i], entries[k]]
        0 <= i < s.len() && 0 <= k < entries.len() && entries[k].exists && s[i].file_path@
            == entries[k].file_path@ ==> series_of_json(s[i].associated_series_json@) is Some
}

proof fn lemma_step_ok(
    cur: Seq<ProjectFile>,
    s: Seq<ProjectFile>,
    entries: Seq<ManifestEntry>,
    ids: Seq<Seq<char>>,
    k: int,
)
    requires
        category_ok(s, entries, ids),
        0 <= k < entries.len(),
        ids.len() == entries.len(),
        kept_or_readable(cur, s),
        ids_known(cur, s, ids.take(k)),
    ensures
        entry_error(cur, entries[k], ids[k]) is None,
{
    let e = entries[k];
    if e.exists && !has_key(cur, e.file_path@) {
        assert(e.file_name is Some);
        if has_id(cur, ids[k]) {
            let i = choose|i: int| 0 <= i < cur.len() && cur[i].id_of() == ids[k];
            assert(has_id(s, cur[i].id@) || ids.take(k).contains(cur[i].id@));
            if ids.take(k).contains(cur[i].id@) {
                let j = choose|j: int| 0 <= j < ids.take(k).len() && ids.take(k)[j] == cur[i].id@;
                assert(ids[j] == ids[k]);
            }
        }
    } else if e.exists {
        let i = choose|i: int| 0 <= i < cur.len() && cur[i].key_of() == e.file_path@;
        assert(cur.contains(cur[i]));
        let prev = file_with_path(cur, e.file_path@);
        let m = choose|m: int| 0 <= m < cur.len() && cur[m] == prev;
        if s.contains(prev) {
            let n = choose|n: int| 0 <= n < s.len() && s[n] == prev;
            assert(entries[k].exists);
            assert(s[n].file_path@ == entries[k].file_path@);
        } else {
            assert(series_of_json(cur[m].associated_series_json@) is Some);
        }
    }
}

proof fn lemma_step_keeps(
    t: Seq<ProjectFile>,
    cur: Seq<ProjectFile>,
    s: Seq<ProjectFile>,
    series: Seq<char>,
    entry: ManifestEntry,
    ids: Seq<Seq<char>>,
    k: int,
    now: Seq<char>,
)
    requires
        0 <= k < ids.len(),
        entry_reconciled(t, cur, series, entry, ids[k], now),
        kept_or_readable(cur, s),
        ids_known(cur, s, ids.take(k)),
    ensures
        kept_or_readable(t, s),
        ids_known(t, s, ids.take(k + 1)),
{
    assert forall|x: Seq<char>| ids.take(k).contains(x) implies ids.take(k + 1).contains(x) by {
        let j = choose|j: int| 0 <= j < ids.take(k).len() && ids.take(k)[j] == x;
        assert(ids.take(k + 1)[j] == x);
    }
    assert(ids.take(k + 1)[k] == ids[k]);
    assert forall|i: int| 0 <= i < t.len() implies (s.contains(#[trigger] t[i]) || series_of_json(
        t[i].associated_series_json@,
    ) is Some) && (has_id(s, t[i].id@) || ids.take(k + 1).contains(t[i].id@)) by {
        if !entry.exists {
            let p = |f: ProjectFile| f.file_path@ != entry.file_path@;
            assert(t == cur.filter(p));
            assert(t.contains(t[i]));
            cur.lemma_filter_contains_rev(p, t[i]);
            let m = choose|m: int| 0 <= m < cur.len() && cur[m] == t[i];
            assert(s.contains(cur[m]) || series_of_json(cur[m].associated_series_json@) is Some);
            assert(has_id(s, cur[m].id@) || ids.take(k).contains(cur[m].id@));
        } else if !has_key(cur, entry.file_path@) {
            if i < cur.len() {
                assert(t[i] == t.drop_last()[i]);
                assert(s.contains(cur[i]) || series_of_json(cur[i].associated_series_json@) is Some);
                assert(has_id(s, cur[i].id@) || ids.take(k).contains(cur[i].id@));
            } else {
                assert(t[i] == t.last());
            }
        } else {
            match series_of_json(file_with_path(cur, entry.file_path@).associated_series_json@) {
                None => {},
                Some(l) => {
                    if !l.contains(series) {
                        let m = choose|m: Seq<Seq<char>>|
                            texts_sorted(m) && m.to_multiset() == l.push(series).to_multiset()
                                && forall|j: int|
                                0 <= j < cur.len() ==> if cur[j].file_path@ == entry.file_path@ {
                                    is_retagged_file(t[j], cur[j], m, now)
                                } else {
                                    t[j] == cur[j]
                                };
                        assert(has_id(s, cur[i].id@) || ids.take(k).contains(cur[i].id@));
                        if cur[i].file_path@ != entry.file_path@ {
                            assert(s.contains(cur[i]) || series_of_json(
                                cur[i].associated_series_json@,
                            ) is Some);
                        }
                    } else {
                        assert(s.contains(cur[i]) || series_of_json(
                            cur[i].associated_series_json@,
                        ) is Some);
                        assert(has_id(s, cur[i].id@) || ids.take(k).contains(cur[i].id@));
                    }
                },
            }
        }
    }
}

/// Whether reconciling the lines `entries` over `s` failed with `e` at some
/// line `k`, leaving `t`: the lines before `k` were reconciled, one at a
/// time, and line `k` comes to `e` over the table they left.
pub open spec fn category_failed(
    t: Seq<ProjectFile>,
    s: Seq<ProjectFile>,
    series: Seq<char>,
    entries: Seq<ManifestEntry>,
    ids: Seq<String>,
    now: Seq<char>,
    e: CommandError,
) -> bool {
    exists|chain: Seq<Seq<ProjectFile>>, k: int|
        0 <= k < entries.len() && chain.len() == k + 1 && chain[0] == s && chain[k] == t
            && entry_error(t, entries[k], ids[k]@) == Some(e) && forall|j: int|
            0 <= j < k ==> #[trigger] entry_reconciled(
                chain[j + 1],
                chain[j],
                series,
                entries[j],
                ids[j]@,
                now,
            )
}

/// Whether `t` is `s` after the lines `entries` of the category `series`
/// were reconciled in order, line `k` with `ids[k]` for a new row: some chain
/// of tables leads from `s` to `t`, one line at a time.
pub open spec fn category_reconciled(
    t: Seq<ProjectFile>,
    s: Seq<ProjectFile>,
    series: Seq<char>,
    entries: Seq<ManifestEntry>,
    ids: Seq<String>,
    now: Seq<char>,
) -> bool {
    exists|chain: Seq<Seq<ProjectFile>>|
        chain.len() == entries.len() + 1 && chain[0] == s && chain[entries.len() as int] == t
            && forall|j: int|
            0 <= j < entries.len() ==> #[trigger] entry_reconciled(
                chain[j + 1],
                chain[j],
                series,
                entries[j],
                ids[j]@,
                now,
            )
}

/// Reconciles each line of the category `series` in order, line `k` with
/// identifier `ids[k]` for a new row, and gives the rewritten list.
pub fn refresh_project_file_category(
    files: &mut Table<ProjectFile>,
    series: &str,
    entries: &Vec<ManifestEntry>,
    ids: &Vec<String>,
    now: &String,
) -> (r: Result<String, CommandError>)
    requires
        old(files).wf(),
        ids@.len() == entries@.len(),
    ensures
        final(files).wf(),
        r matches Ok(t) ==> t@ == manifest_text(entries@) && category_reconciled(
            final(files)@,
            old(files)@,
            series@,
            entries@,
            ids@,
            now@,
        ),
        r is Ok ==> kept_or_readable(final(files)@, old(files)@) && ids_known(
            final(files)@,
            old(files)@,
            texts(ids@),
        ),
        r matches Err(e) ==> category_failed(
            final(files)@,
            old(files)@,
            series@,
            entries@,
            ids@,
            now@,
            e,
        ),
        category_ok(old(files)@, entries@, texts(ids@)) ==> r is Ok,
{
    let ghost s = files@;
    let ghost mut chain: Seq<Seq<ProjectFile>> = seq![files@];
    let mut out = String::new();
    let mut k: usize = 0;
    while k < entries.len()
        invariant
            files.wf(),
            s == old(files)@,
            ids@.len() == entries@.len(),
            k <= entries@.len(),
            out@ == manifest_text(entries@.take(k as int)),
            chain.len() == k + 1,
            chain[0] == s,
            chain[k as int] == files@,
            forall|j: int|
                0 <= j < k ==> #[trigger] entry_reconciled(
                    chain[j + 1],
                    chain[j],
                    series@,
                    entries@[j],
                    ids@[j]@,
                    now@,
                ),
            kept_or_readable(files@, s),
            ids_known(files@, s, texts(ids@).take(k as int)),
        decreases entries@.len() - k,
    {
        let ghost cur = files@;
        proof {
            assert(texts(ids@)[k as int] == ids@[k as int]@);
            if category_ok(s, entries@, texts(ids@)) {
                lemma_step_ok(cur, s, entries@, texts(ids@), k as int);
            }
        }
        let keep = match reconcile_manifest_entry(files, series, &entries[k], &ids[k], now) {
            Ok(b) => b,
            Err(e) => {
                proof {
                    assert(category_failed(files@, s, series@, entries@, ids@, now@, e)) by {
                        assert(entry_error(files@, entries@[k as int], ids@[k as int]@) == Some(e));
                    }
                }
                return Err(e);
            },
        };
        proof {
            lemma_step_keeps(files@, cur, s, series@, entries@[k as int], texts(ids@), k as int, now@);
            let before = chain;
            chain = chain.push(files@);
            assert forall|j: int| 0 <= j < k + 1 implies #[trigger] entry_reconciled(
                chain[j + 1],
                chain[j],
                series@,
                entries@[j],
                ids@[j]@,
                now@,
            ) by {
                if j < k {
                    assert(chain[j + 1] == before[j + 1] && chain[j] == before[j]);
                }
            }
        }
        proof {
            assert(entries@.take(k + 1).drop_last() =~= entries@.take(k as int));
        }
        if keep {
            out.append(entries[k].file_path.as_str());
            out.append("\n");
            proof {
                reveal_strlit("\n");
            }
        }
        k += 1;
    }
    proof {
        assert(entries@.take(entries@.len() as int) =~= entries@);
        assert(texts(ids@).take(ids@.len() as int) =~= texts(ids@));
    }
    Ok(out)
}

/// Removes the project files whose path is among `missing`, and gives their
/// identifiers.
pub fn prune_missing_project_files(files: &mut Table<ProjectFile>, missing: &Vec<String>) -> (r: Vec<
    String,
>)
    requires
        old(files).wf(),
    ensures
        final(files).wf(),
        final(files)@ == old(files)@.filter(key_absent(texts(missing@))),
        texts(r@) == ids_of(old(files)@.filter(key_present(texts(missing@)))),
{
    files.remove_keys(missing)
}

/// The recent-files list of one category, with an identifier for each line.
pub struct ManifestCategory {
    pub series: String,
    pub entries: Vec<ManifestEntry>,
    pub ids: Vec<String>,
}

/// Whether `t` is `s` after every category was reconciled in order and the
/// files whose path is among `missing` were removed.
pub open spec fn files_refreshed(
    t: Seq<ProjectFile>,
    s: Seq<ProjectFile>,
    categories: Seq<ManifestCategory>,
    missing: Seq<Seq<char>>,
    now: Seq<char>,
) -> bool {
    exists|chain: Seq<Seq<ProjectFile>>|
        chain.len() == categories.len() + 1 && chain[0] == s && t == chain[categories.len() as int].filter(
            key_absent(missing),
        ) && forall|c: int|
            0 <= c < categories.len() ==> #[trigger] category_reconciled(
                chain[c + 1],
                chain[c],
                categories[c].series@,
                categories[c].entries@,
                categories[c].ids@,
                now,
            )
}

/// The identifiers for new rows of the categories before `c`, in order.
pub open spec fn ids_before(cats: Seq<ManifestCategory>, c: int) -> Seq<Seq<char>>
    decreases c,
{
    if c <= 0 {
        Seq::empty()
    } else {
        ids_before(cats, c - 1) + texts(cats[c - 1].ids@)
    }
}

proof fn lemma_ids_before(cats: Seq<ManifestCategory>, c: int, x: Seq<char>)
    requires
        0 <= c <= cats.len(),
        ids_before(cats, c).contains(x),
    ensures
        exists|d: int, k: int| 0 <= d < c && 0 <= k < cats[d].ids@.len() && cats[d].ids@[k]@ == x,
    decreases c,
{
    let a = ids_before(cats, c - 1);
    let b = texts(cats[c - 1].ids@);
    let j = choose|j: int| 0 <= j < (a + b).len() && (a + b)[j] == x;
    if j < a.len() {
        assert(a[j] == x);
        lemma_ids_before(cats, c - 1, x);
    } else {
        assert(b[j - a.len()] == x);
        assert(cats[c - 1].ids@[j - a.len()]@ == x);
    }
}

/// Whether refreshing every category over `s` is owed success: every file
/// on disk has a file name, the identifiers for new rows are unused and
/// pairwise distinct over all categories, and every stored row that a line
/// on disk names holds a series list that reads as one.
pub open spec fn refresh_ok(s: Seq<ProjectFile>, cats: Seq<ManifestCategory>) -> bool {
    &&& forall|c: int, k: int|
        0 <= c < cats.len() && 0 <= k < cats[c].entries@.len() && (#[trigger] cats[c].entries@[k]).exists
            ==> cats[c].entries@[k].file_name is Some
    &&& forall|c: int, k: int|
        0 <= c < cats.len() && 0 <= k < cats[c].ids@.len() ==> !has_id(s, (#[trigger] cats[c].ids@[k])@)
    &&& forall|c: int, j: int, d: int, k: int|
        #![trigger cats[c].ids@[j], cats[d].ids@[k]]
        0 <= c < cats.len() && 0 <= d < cats.len() && 0 <= j < cats[c].ids@.len() && 0 <= k
            < cats[d].ids@.len() && (c < d || (c == d && j < k)) ==> cats[c].ids@[j]@ != cats[d].ids@[k]@
    &&& forall|i: int, c: int, k: int|
        #![trigger s[i], cats[c].entries@[k]]
        0 <= i < s.len() && 0 <= c < cats.len() && 0 <= k < cats[c].entries@.len()
            && cats[c].entries@[k].exists && s[i].file_path@ == cats[c].entries@[k].file_path@
            ==> series_of_json(s[i].associated_series_json@) is Some
}

proof fn lemma_category_owed(cur: Seq<ProjectFile>, s: Seq<ProjectFile>, cats: Seq<ManifestCategory>, c: int)
    requires
        0 <= c < cats.len(),
        refresh_ok(s, cats),
        kept_or_readable(cur, s),
        ids_known(cur, s, ids_before(cats, c)),
    ensures
        category_ok(cur, cats[c].entries@, texts(cats[c].ids@)),
{
    let entries = cats[c].entries@;
    let ids = texts(cats[c].ids@);
    assert forall|k: int| 0 <= k < entries.len() && (#[trigger] entries[k]).exists implies entries[k].file_name is Some by {
        assert(cats[c].entries@[k].exists);
    }
    assert forall|k: int| 0 <= k < ids.len() implies !has_id(cur, #[trigger] ids[k]) by {
        assert(ids[k] == cats[c].ids@[k]@);
        if has_id(cur, ids[k]) {
            let i = choose|i: int| 0 <= i < cur.len() && cur[i].id_of() == ids[k];
            assert(has_id(s, cur[i].id@) || ids_before(cats, c).contains(cur[i].id@));
            if ids_before(cats, c).contains(cur[i].id@) {
                lemma_ids_before(cats, c, cur[i].id@);
                let (d, j) = choose|d: int, j: int|
                    0 <= d < c && 0 <= j < cats[d].ids@.len() && cats[d].ids@[j]@ == cur[i].id@;
                assert(cats[d].ids@[j]@ != cats[c].ids@[k]@);
            } else {
                assert(!has_id(s, cats[c].ids@[k]@));
            }
        }
    }
    assert forall|j: int, k: int| 0 <= j < k < ids.len() implies ids[j] != ids[k] by {
        assert(ids[j] == cats[c].ids@[j]@ && ids[k] == cats[c].ids@[k]@);
        assert(cats[c].ids@[j]@ != cats[c].ids@[k]@);
    }
    assert forall|i: int, k: int|
        #![trigger cur[i], entries[k]]
        0 <= i < cur.len() && 0 <= k < entries.len() && entries[k].exists && cur[i].file_path@
            == entries[k].file_path@ implies series_of_json(cur[i].associated_series_json@) is Some by {
        if s.contains(cur[i]) {
            let n = choose|n: int| 0 <= n < s.len() && s[n] == cur[i];
            assert(cats[c].entries@[k] == entries[k]);
            assert(s[n].file_path@ == cats[c].entries@[k].file_path@);
        }
    }
}

proof fn lemma_category_composes(
    t: Seq<ProjectFile>,
    cur: Seq<ProjectFile>,
    s: Seq<ProjectFile>,
    cats: Seq<ManifestCategory>,
    c: int,
)
    requires
        0 <= c < cats.len(),
        kept_or_readable(cur, s),
        ids_known(cur, s, ids_before(cats, c)),
        kept_or_readable(t, cur),
        ids_known(t, cur, texts(cats[c].ids@)),
    ensures
        kept_or_readable(t, s),
        ids_known(t, s, ids_before(cats, c + 1)),
{
    let a = ids_before(cats, c);
    let b = texts(cats[c].ids@);
    assert(ids_before(cats, c + 1) == a + b);
    assert forall|i: int| 0 <= i < t.len() implies (s.contains(#[trigger] t[i]) || series_of_json(
        t[i].associated_series_json@,
    ) is Some) && (has_id(s, t[i].id@) || (a + b).contains(t[i].id@)) by {
        if cur.contains(t[i]) {
            let m = choose|m: int| 0 <= m < cur.len() && cur[m] == t[i];
            assert(s.contains(cur[m]) || series_of_json(cur[m].associated_series_json@) is Some);
        }
        if has_id(cur, t[i].id@) {
            let m = choose|m: int| 0 <= m < cur.len() && cur[m].id_of() == t[i].id@;
            assert(has_id(s, cur[m].id@) || a.contains(cur[m].id@));
            if a.contains(cur[m].id@) {
                let j = choose|j: int| 0 <= j < a.len() && a[j] == cur[m].id@;
                assert((a + b)[j] == a[j]);
            }
        } else {
            assert(b.contains(t[i].id@));
            let j = choose|j: int| 0 <= j < b.len() && b[j] == t[i].id@;
            assert((a + b)[a.len() + j] == b[j]);
        }
    }
}

/// Whether refreshing the categories over `s` failed with `e` in category
/// `c`, leaving `t`: the categories before `c` were reconciled, one at a
/// time, and category `c` failed over the table they left.
pub open spec fn refresh_failed(
    t: Seq<ProjectFile>,
    s: Seq<ProjectFile>,
    cats: Seq<ManifestCategory>,
    now: Seq<char>,
    e: CommandError,
) -> bool {
    exists|chain: Seq<Seq<ProjectFile>>, c: int|
        0 <= c < cats.len() && chain.len() == c + 1 && chain[0] == s && category_failed(
            t,
            chain[c],
            cats[c].series@,
            cats[c].entries@,
            cats[c].ids@,
            now,
            e,
        ) && forall|j: int|
            0 <= j < c ==> #[trigger] category_reconciled(
                chain[j + 1],
                chain[j],
                cats[j].series@,
                cats[j].entries@,
                cats[j].ids@,
                now,
            )
}

/// Reconciles every category in order, then removes the project files whose
/// path is among `missing`; gives each category's rewritten list.
pub fn insert_and_refresh_blend_files(
    files: &mut Table<ProjectFile>,
    categories: &Vec<ManifestCategory>,
    missing: &Vec<String>,
    now: &String,
) -> (r: Result<Vec<String>, CommandError>)
    requires
        old(files).wf(),
        forall|c: int|
            0 <= c < categories@.len() ==> #[trigger] categories@[c].ids@.len()
                == categories@[c].entries@.len(),
    ensures
        final(files).wf(),
        r matches Ok(v) ==> v@.len() == categories@.len() && (forall|c: int|
            0 <= c < categories@.len() ==> #[trigger] v@[c]@ == manifest_text(
                categories@[c].entries@,
            )) && files_refreshed(final(files)@, old(files)@, categories@, texts(missing@), now@),
        r matches Err(e) ==> refresh_failed(final(files)@, old(files)@, categories@, now@, e),
        refresh_ok(old(files)@, categories@) ==> r is Ok,
{
    let ghost s = files@;
    let ghost mut chain: Seq<Seq<ProjectFile>> = seq![files@];
    let mut out: Vec<String> = Vec::new();
    let mut c: usize = 0;
    while c < categories.len()
        invariant
            files.wf(),
            s == old(files)@,
            chain.len() == c + 1,
            chain[0] == s,
            chain[c as int] == files@,
            forall|j: int|
                0 <= j < c ==> #[trigger] category_reconciled(
                    chain[j + 1],
                    chain[j],
                    categories@[j].series@,
                    categories@[j].entries@,
                    categories@[j].ids@,
                    now@,
                ),
            c <= categories@.len(),
            out@.len() == c,
            forall|c: int|
                0 <= c < categories@.len() ==> #[trigger] categories@[c].ids@.len()
                    == categories@[c].entries@.len(),
            forall|j: int| 0 <= j < c ==> #[trigger] out@[j]@ == manifest_text(categories@[j].entries@),
            kept_or_readable(files@, s),
            ids_known(files@, s, ids_before(categories@, c as int)),
        decreases categories@.len() - c,
    {
        let cat = &categories[c];
        let ghost cur = files@;
        proof {
            if refresh_ok(s, categories@) {
                lemma_category_owed(cur, s, categories@, c as int);
            }
        }
        let text = match refresh_project_file_category(files, cat.series.as_str(), &cat.entries, &cat.ids, now) {
            Ok(t) => t,
            Err(e) => {
                proof {
                    assert(refresh_failed(files@, s, categories@, now@, e)) by {
                        assert(chain[c as int] == cur);
                    }
                }
                return Err(e);
            },
        };
        proof {
            lemma_category_composes(files@, cur, s, categories@, c as int);
            let before = chain;
            chain = chain.push(files@);
            assert forall|j: int| 0 <= j < c + 1 implies #[trigger] category_reconciled(
                chain[j + 1],
                chain[j],
                categories@[j].series@,
                categories@[j].entries@,
                categories@[j].ids@,
                now@,
            ) by {
                if j < c {
                    assert(chain[j + 1] == before[j + 1] && chain[j] == before[j]);
                }
            }
        }
        out.push(text);
        c += 1;
    }
    let _ = prune_missing_project_files(files, missing);
    Ok(out)
}

/// Whether `r` is the row added for the file at `path` named `name`, with
/// an empty series list, under `id` at `now`.
pub open spec fn is_added_file(r: ProjectFile, path: Seq<char>, name: Seq<char>, id: Seq<char>, now: Seq<char>) -> bool {
    &&& r.id@ == id
    &&& r.file_path@ == path
    &&& r.file_name@ == name
    &&& r.associated_series_json@ == series_json(Seq::empty())
    &&& r.last_used_blender_version_id is None
    &&& r.created@ == now
    &&& r.modified@ == now
    &&& r.accessed@ == now
}

/// Adds the file at `file_path` (named `file_name`) under `id`, unless a row
/// holds that path already.
pub fn insert_blend_file(
    files: &mut Table<ProjectFile>,
    file_path: &str,
    file_name: Option<&str>,
    id: &String,
    now: &String,
) -> (r: Result<(), CommandError>)
    requires
        old(files).wf(),
    ensures
        final(files).wf(),
        r is Err ==> final(files)@ == old(files)@,
        file_name is None ==> r == Err::<(), CommandError>(CommandError::NoFileName),
        file_name is Some ==> (r is Err <==> !has_key(old(files)@, file_path@) && has_id(
            old(files)@,
            id@,
        )),
        file_name is Some && r is Err ==> r == Err::<(), CommandError>(
            CommandError::Storage(StoreError::DuplicateId),
        ),
        file_name is Some && has_key(old(files)@, file_path@) ==> final(files)@ == old(files)@,
        r is Ok && !has_key(old(files)@, file_path@) ==> {
            &&& final(files)@.len() == old(files)@.len() + 1
            &&& final(files)@.drop_last() == old(files)@
            &&& file_name matches Some(n) && is_added_file(
                final(files)@.last(),
                file_path@,
                n@,
                id@,
                now@,
            )
        },
{
    let name = match file_name {
        Some(n) => n.to_owned(),
        None => return Err(CommandError::NoFileName),
    };
    let empty: Vec<String> = Vec::new();
    proof {
        assert(texts(empty@) =~= Seq::<Seq<char>>::empty());
    }
    let json = series_text(&empty);
    let row = ProjectFile {
        id: id.clone(),
        file_path: file_path.to_owned(),
        file_name: name,
        associated_series_json: json,
        last_used_blender_version_id: None,
        created: now.clone(),
        modified: now.clone(),
        accessed: now.clone(),
    };
    let ghost s = files@;
    match files.insert(row) {
        Ok(_) => {
            proof {
                if !has_key(s, file_path@) {
                    assert(files@.drop_last() =~= s);
                }
            }
            Ok(())
        },
        Err(e) => Err(CommandError::Storage(e)),
    }
}

/// Removes project file `id` and gives the row, whose file the caller then
/// deletes.
pub fn delete_blend_file(files: &mut Table<ProjectFile>, id: &str) -> (r: Result<ProjectFile, CommandError>)
    requires
        old(files).wf(),
    ensures
        final(files).wf(),
        r is Err <==> !has_id(old(files)@, id@),
        r matches Err(e) ==> e == CommandError::NotFound && final(files)@ == old(files)@,
        r matches Ok(f) ==> f == crate::table::row_with_id(old(files)@, id@) && final(files)@ == old(
            files)@.filter(|x: ProjectFile| x.id_of() != id@),
{
    match files.get(id) {
        Some(f) => {
            files.delete(id);
            Ok(f)
        },
        None => Err(CommandError::NotFound),
    }
}

/// The script line that loads Blender's Python module.
pub const IMPORT_BPY: &'static str = "import bpy";

/// The script line that saves the open scene to `blend_file_path`.
pub const SAVE_AS_MAINFILE: &'static str = "bpy.ops.wm.save_as_mainfile(filepath=blend_file_path)";

/// The script that makes a build save an empty project file at `path`.
pub open spec fn new_project_script(path: Seq<char>) -> Seq<char> {
    "\n"@ + IMPORT_BPY@ + "\nblend_file_path=r\""@ + path + "\"\n"@ + SAVE_AS_MAINFILE@ + "\n"@
}

/// The arguments that make a build save an empty project file at `path`
/// and exit: run without a window, then the script.
pub fn new_project_file_arguments(path: &str) -> (r: Vec<String>)
    ensures
        texts(r@) == seq!["--background"@, "--python-expr"@, new_project_script(path@)],
{
    let mut script = String::new();
    script.append("\n");
    script.append(IMPORT_BPY);
    script.append("\nblend_file_path=r\"");
    script.append(path);
    script.append("\"\n");
    script.append(SAVE_AS_MAINFILE);
    script.append("\n");
    let mut out: Vec<String> = Vec::new();
    out.push("--background".to_owned());
    out.push("--python-expr".to_owned());
    out.push(script);
    assert(texts(out@) =~= seq!["--background"@, "--python-expr"@, new_project_script(path@)]);
    out
}

/// The extension of project files.
pub const BLEND_EXTENSION: &'static str = ".blend";

/// A new project file's name: `name`, with `.blend` appended unless it ends so.
pub fn project_file_name(name: &str) -> (r: String)
    ensures
        r@ == (if BLEND_EXTENSION@.len() <= name@.len() && name@.skip(
            name@.len() - BLEND_EXTENSION@.len(),
        ) == BLEND_EXTENSION@ {
            name@
        } else {
            name@ + BLEND_EXTENSION@
        }),
{
    let mut out: String = name.to_owned();
    if !crate::text::ends_with(name, BLEND_EXTENSION) {
        out.append(BLEND_EXTENSION);
    }
    out
}

} // verus!
