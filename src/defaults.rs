use vstd::prelude::*;

use crate::error::CommandError;
use crate::table::{has_id, unique_ids, Record, Table};

verus! {

/// A row that carries the collection's "default" flag.
pub trait Flagged: Record {
    spec fn flag_of(&self) -> bool;

    /// Whether `self` is `prev` with its flag set to `f`, every other field kept.
    spec fn flag_set(&self, prev: &Self, f: bool) -> bool;

    /// Whether `self` is `prev` with its flag set to `f` and its modification
    /// and access times set to `now`, every other field kept.
    spec fn reflagged(&self, prev: &Self, f: bool, now: Seq<char>) -> bool;

    proof fn lemma_flag_set(&self, prev: &Self, f: bool)
        requires
            self.flag_set(prev, f),
        ensures
            self.id_of() == prev.id_of(),
            self.key_of() == prev.key_of(),
    ;

    proof fn lemma_reflagged(&self, prev: &Self, e: &Self, f: bool, now: Seq<char>)
        requires
            e.flag_set(prev, f),
            self.update_of(prev, e, now),
        ensures
            self.reflagged(prev, f, now),
    ;

    proof fn lemma_reflagged_flag(&self, prev: &Self, f: bool, now: Seq<char>)
        requires
            self.reflagged(prev, f, now),
        ensures
            self.flag_of() == f,
    ;

    fn flag(&self) -> (r: bool)
        ensures
            r == self.flag_of(),
    ;

    fn with_flag(&self, f: bool) -> (r: Self)
        ensures
            r.flag_set(self, f),
    ;
}

/// Whether row `t` is row `s` after `set_default(id, want)` at time `now`.
/// Clearing rewrites the row that holds `id` with its flag false. Setting
/// sweeps every row: a row's flag becomes whether it holds `id`, and only the
/// rows whose flag changes are rewritten.
pub open spec fn default_row<E: Flagged>(t: E, s: E, id: Seq<char>, want: bool, now: Seq<char>) -> bool {
    let target = s.id_of() == id;
    if want {
        if s.flag_of() != target {
            t.reflagged(&s, target, now)
        } else {
            t == s
        }
    } else if target {
        t.reflagged(&s, false, now)
    } else {
        t == s
    }
}

/// Whether `t` is the collection `s` after `set_default(id, want)` at time `now`.
pub open spec fn default_set<E: Flagged>(
    t: Seq<E>,
    s: Seq<E>,
    id: Seq<char>,
    want: bool,
    now: Seq<char>,
) -> bool {
    &&& t.len() == s.len()
    &&& forall|i: int| 0 <= i < s.len() ==> #[trigger] default_row(t[i], s[i], id, want, now)
}

pub open spec fn at_most_one_default<E: Flagged>(s: Seq<E>) -> bool {
    forall|i: int, j: int| 0 <= i < j < s.len() && s[i].flag_of() ==> !s[j].flag_of()
}

pub open spec fn no_default<E: Flagged>(s: Seq<E>) -> bool {
    forall|i: int| 0 <= i < s.len() ==> !s[i].flag_of()
}

/// After any `set_default` call at most one row of the collection is the
/// default: setting leaves only the target flagged, whatever held before, and
/// clearing keeps the property where it held.
pub proof fn lemma_single_default<E: Flagged>(
    t: Seq<E>,
    s: Seq<E>,
    id: Seq<char>,
    want: bool,
    now: Seq<char>,
)
    requires
        unique_ids(s),
        default_set(t, s, id, want, now),
        want || at_most_one_default(s),
    ensures
        at_most_one_default(t),
{
    assert forall|i: int| 0 <= i < t.len() implies t[i].flag_of() == if want {
        s[i].id_of() == id
    } else if s[i].id_of() == id {
        false
    } else {
        s[i].flag_of()
    } by {
        let target = s[i].id_of() == id;
        assert(default_row(t[i], s[i], id, want, now));
        if want && s[i].flag_of() != target {
            t[i].lemma_reflagged_flag(&s[i], target, now);
        } else if !want && target {
            t[i].lemma_reflagged_flag(&s[i], false, now);
        }
    }
}

/// Over any sequence of `set_default` calls on a collection that starts with
/// at most one default, every collection along the way has at most one.
pub proof fn lemma_single_default_over_calls<E: Flagged>(
    chain: Seq<Seq<E>>,
    ids: Seq<Seq<char>>,
    wants: Seq<bool>,
    times: Seq<Seq<char>>,
)
    requires
        chain.len() == ids.len() + 1,
        wants.len() == ids.len(),
        times.len() == ids.len(),
        at_most_one_default(chain[0]),
        forall|k: int| 0 <= k < chain.len() ==> unique_ids(#[trigger] chain[k]),
        forall|k: int|
            0 <= k < ids.len() ==> default_set(#[trigger] chain[k + 1], chain[k], ids[k], wants[k], times[k]),
    ensures
        forall|k: int| 0 <= k < chain.len() ==> at_most_one_default(#[trigger] chain[k]),
    decreases ids.len(),
{
    if ids.len() > 0 {
        let n = ids.len() - 1;
        lemma_single_default_over_calls(chain.drop_last(), ids.drop_last(), wants.drop_last(), times.drop_last());
        assert(chain.drop_last()[n] == chain[n]);
        lemma_single_default(chain[n + 1], chain[n], ids[n], wants[n], times[n]);
        assert forall|k: int| 0 <= k < chain.len() implies at_most_one_default(#[trigger] chain[k]) by {
            if k <= n {
                assert(chain.drop_last()[k] == chain[k]);
            }
        }
    }
}

/// Setting as default an identifier that no row holds leaves no default.
pub proof fn lemma_default_of_unknown_id<E: Flagged>(
    t: Seq<E>,
    s: Seq<E>,
    id: Seq<char>,
    now: Seq<char>,
)
    requires
        default_set(t, s, id, true, now),
        !has_id(s, id),
    ensures
        no_default(t),
{
    assert forall|i: int| 0 <= i < t.len() implies !#[trigger] t[i].flag_of() by {
        assert(s[i].id_of() != id);
        assert(default_row(t[i], s[i], id, true, now));
        if s[i].flag_of() {
            t[i].lemma_reflagged_flag(&s[i], false, now);
        }
    }
}

/// Rewrites row `i` with flag `f`; every other row stays.
fn reflag_row<E: Flagged>(table: &mut Table<E>, i: usize, f: bool, now: &String)
    requires
        old(table).wf(),
        i < old(table)@.len(),
    ensures
        final(table).wf(),
        final(table)@ == old(table)@.update(i as int, final(table)@[i as int]),
        final(table)@[i as int].reflagged(&old(table)@[i as int], f, now@),
{
    let ghost s = table@;
    let e = table.row(i).with_flag(f);
    proof {
        e.lemma_flag_set(&s[i as int], f);
        assert(!(exists|j: int|
            0 <= j < s.len() && s[j].id_of() != e.id_of() && s[j].key_of() == e.key_of()));
    }
    let _ = table.update(&e, now);
    proof {
        let t = table@;
        assert forall|j: int| 0 <= j < s.len() && j != i implies t[j] == s[j] by {
            assert(s[j].id_of() != s[i as int].id_of());
        }
        t[i as int].lemma_reflagged(&s[i as int], &e, f, now@);
        assert(t =~= s.update(i as int, t[i as int]));
    }
}

/// Sets (`want`) or clears the default flag of the row that holds `id`.
/// Clearing an identifier that no row holds fails with `NotFound`; setting
/// one clears every flag.
pub fn set_default<E: Flagged>(table: &mut Table<E>, id: &str, want: bool, now: &String) -> (r:
    Result<(), CommandError>)
    requires
        old(table).wf(),
    ensures
        final(table).wf(),
        r == (if !want && !has_id(old(table)@, id@) {
            Err::<(), CommandError>(CommandError::NotFound)
        } else {
            Ok(())
        }),
        r is Ok ==> default_set(final(table)@, old(table)@, id@, want, now@),
        r is Err ==> final(table)@ == old(table)@,
{
    let id: String = id.to_owned();
    let ghost s = table@;
    let n = table.len();
    let mut found = false;
    let mut i: usize = 0;
    while i < n
        invariant
            table.wf(),
            n == s.len(),
            i <= n,
            table@.len() == n,
            unique_ids(s),
            forall|k: int| i <= k < n ==> table@[k] == s[k],
            forall|k: int| 0 <= k < i ==> #[trigger] default_row(table@[k], s[k], id@, want, now@),
            found == exists|k: int| 0 <= k < i && s[k].id_of() == id@,
        decreases n - i,
    {
        let row = table.row(i);
        let target = row.id().eq(&id);
        if target {
            found = true;
        }
        if want && row.flag() != target || !want && target {
            let ghost before = table@;
            reflag_row(table, i, target && want, now);
            proof {
                assert forall|k: int| 0 <= k < i implies #[trigger] default_row(table@[k], s[k], id@, want, now@) by {
                    assert(table@[k] == before[k]);
                    assert(default_row(before[k], s[k], id@, want, now@));
                }
            }
        }
        proof {
            assert(default_row(table@[i as int], s[i as int], id@, want, now@));
        }
        i += 1;
    }
    if !want && !found {
        proof {
            assert forall|k: int| 0 <= k < n implies table@[k] == s[k] by {
                assert(default_row(table@[k], s[k], id@, want, now@));
            }
            assert(table@ =~= s);
        }
        return Err(CommandError::NotFound);
    }
    Ok(())
}

} // verus!
