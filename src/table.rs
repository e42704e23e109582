use vstd::prelude::*;

use crate::text::{holds_text, texts};

verus! {

/// What the store refuses.
#[derive(PartialEq, Eq, Structural, Clone, Copy, Debug)]
pub enum StoreError {
    /// A new row reuses the identifier of a stored row.
    DuplicateId,
    /// An update would give a row the natural key of another row.
    DuplicateKey,
}

/// A row of one of the store's tables: an identifier, a natural key that
/// the table keeps unique, and the way an update rewrites a stored row.
pub trait Record: Sized {
    spec fn id_of(&self) -> Seq<char>;

    spec fn key_of(&self) -> Seq<char>;

    /// Whether `self` is the stored row `prev` after an update that carries
    /// `e` at time `now`: the mutable fields from `e`, the modification and
    /// access times set to `now`, the rest kept.
    spec fn update_of(&self, prev: &Self, e: &Self, now: Seq<char>) -> bool;

    proof fn lemma_update_of(&self, prev: &Self, e: &Self, now: Seq<char>)
        requires
            self.update_of(prev, e, now),
        ensures
            self.id_of() == prev.id_of(),
            self.key_of() == e.key_of(),
    ;

    fn id(&self) -> (r: &String)
        ensures
            r@ == self.id_of(),
    ;

    fn key(&self) -> (r: &String)
        ensures
            r@ == self.key_of(),
    ;

    fn duplicate(&self) -> (r: Self)
        ensures
            r == *self,
    ;

    fn apply_update(&self, e: &Self, now: &String) -> (r: Self)
        ensures
            r.update_of(self, e, now@),
    ;
}

pub open spec fn unique_ids<E: Record>(s: Seq<E>) -> bool {
    forall|i: int, j: int| 0 <= i < j < s.len() ==> s[i].id_of() != s[j].id_of()
}

pub open spec fn unique_keys<E: Record>(s: Seq<E>) -> bool {
    forall|i: int, j: int| 0 <= i < j < s.len() ==> s[i].key_of() != s[j].key_of()
}

pub open spec fn has_id<E: Record>(s: Seq<E>, id: Seq<char>) -> bool {
    exists|i: int| 0 <= i < s.len() && s[i].id_of() == id
}

pub open spec fn has_key<E: Record>(s: Seq<E>, key: Seq<char>) -> bool {
    exists|i: int| 0 <= i < s.len() && s[i].key_of() == key
}

pub open spec fn id_is<E: Record>(id: Seq<char>) -> spec_fn(E) -> bool {
    |r: E| r.id_of() == id
}

pub open spec fn key_is<E: Record>(key: Seq<char>) -> spec_fn(E) -> bool {
    |r: E| r.key_of() == key
}

/// The rows that `fetch` returns: by identifier, else the first `limit` rows
/// (all of them for a negative limit, as SQL's `LIMIT` does), else by
/// natural key, else all rows.
pub open spec fn fetched<E: Record>(
    s: Seq<E>,
    id: Option<Seq<char>>,
    limit: Option<int>,
    key: Option<Seq<char>>,
) -> Seq<E> {
    match id {
        Some(i) => s.filter(id_is(i)),
        None => match limit {
            Some(n) => if 0 <= n < s.len() {
                s.take(n)
            } else {
                s
            },
            None => match key {
                Some(k) => s.filter(key_is(k)),
                None => s,
            },
        },
    }
}

/// The rows after an insert of `e`: unchanged where a row already holds its
/// natural key, else `e` appended.
pub open spec fn inserted<E: Record>(s: Seq<E>, e: E) -> Seq<E> {
    if has_key(s, e.key_of()) {
        s
    } else {
        s.push(e)
    }
}

/// Whether `t` is `s` after an update that carries `e` at time `now`: the row
/// that holds `e`'s identifier rewritten, the others kept.
pub open spec fn rows_updated<E: Record>(t: Seq<E>, s: Seq<E>, e: E, now: Seq<char>) -> bool {
    &&& t.len() == s.len()
    &&& forall|i: int|
        0 <= i < s.len() ==> if s[i].id_of() == e.id_of() {
            t[i].update_of(&s[i], &e, now)
        } else {
            t[i] == s[i]
        }
}

/// Whether an update that carries `e` would give it the key of another row.
pub open spec fn update_conflicts<E: Record>(s: Seq<E>, e: E) -> bool {
    has_id(s, e.id_of()) && exists|i: int| 0 <= i < s.len() && s[i].id_of() != e.id_of() && s[i].key_of() == e.key_of()
}

/// The rows of `s` whose flag in `keep` is set, in order.
pub open spec fn kept<E>(s: Seq<E>, keep: Seq<bool>) -> Seq<E>
    decreases s.len(),
{
    if s.len() == 0 || keep.len() == 0 {
        Seq::empty()
    } else {
        let t = kept(s.drop_last(), keep.drop_last());
        if keep.last() {
            t.push(s.last())
        } else {
            t
        }
    }
}

/// Selecting by flags is filtering by the predicate that set them.
pub proof fn lemma_kept_filter<E>(s: Seq<E>, keep: Seq<bool>, p: spec_fn(E) -> bool)
    requires
        keep.len() == s.len(),
        forall|i: int| 0 <= i < s.len() ==> keep[i] == p(s[i]),
    ensures
        kept(s, keep) == s.filter(p),
    decreases s.len(),
{
    reveal(Seq::filter);
    if s.len() > 0 {
        lemma_kept_filter(s.drop_last(), keep.drop_last(), p);
        assert(keep.last() == p(s.last()));
    } else {
        assert(s =~= Seq::<E>::empty());
    }
}

proof fn lemma_kept_within<E>(s: Seq<E>, keep: Seq<bool>)
    requires
        keep.len() == s.len(),
    ensures
        forall|k: int| 0 <= k < kept(s, keep).len() ==> s.contains(#[trigger] kept(s, keep)[k]),
    decreases s.len(),
{
    if s.len() > 0 {
        let d = s.drop_last();
        let t = kept(d, keep.drop_last());
        lemma_kept_within(d, keep.drop_last());
        assert forall|k: int| 0 <= k < kept(s, keep).len() implies s.contains(
            #[trigger] kept(s, keep)[k],
        ) by {
            if k < t.len() {
                assert(d.contains(t[k]));
                let j = choose|j: int| 0 <= j < d.len() && d[j] == t[k];
                assert(s[j] == t[k]);
            } else {
                assert(kept(s, keep)[k] == s[s.len() - 1]);
            }
        }
    }
}

proof fn lemma_kept_unique<E: Record>(s: Seq<E>, keep: Seq<bool>)
    requires
        keep.len() == s.len(),
        unique_ids(s),
        unique_keys(s),
    ensures
        unique_ids(kept(s, keep)),
        unique_keys(kept(s, keep)),
    decreases s.len(),
{
    if s.len() > 0 {
        let d = s.drop_last();
        let t = kept(d, keep.drop_last());
        lemma_kept_unique(d, keep.drop_last());
        lemma_kept_within(d, keep.drop_last());
        if keep.last() {
            let u = t.push(s.last());
            assert forall|k: int| 0 <= k < t.len() implies u[k].id_of() != s.last().id_of()
                && u[k].key_of() != s.last().key_of() by {
                assert(t[k] == u[k]);
                assert(d.contains(t[k]));
                let j = choose|j: int| 0 <= j < d.len() && d[j] == t[k];
                assert(d[j] == s[j]);
            }
            assert(kept(s, keep) == u);
        }
    }
}

/// Whether a row's natural key is not among `keys`.
pub open spec fn key_absent<E: Record>(keys: Seq<Seq<char>>) -> spec_fn(E) -> bool {
    |r: E| !keys.contains(r.key_of())
}

/// Whether a row's natural key is among `keys`.
pub open spec fn key_present<E: Record>(keys: Seq<Seq<char>>) -> spec_fn(E) -> bool {
    |r: E| keys.contains(r.key_of())
}

/// The identifiers of a sequence of rows.
pub open spec fn ids_of<E: Record>(s: Seq<E>) -> Seq<Seq<char>> {
    s.map_values(|r: E| r.id_of())
}

/// Filters by predicates that agree on every element agree.
pub proof fn lemma_filter_ext<A>(s: Seq<A>, p: spec_fn(A) -> bool, q: spec_fn(A) -> bool)
    requires
        forall|i: int| 0 <= i < s.len() ==> p(s[i]) == q(s[i]),
    ensures
        s.filter(p) == s.filter(q),
    decreases s.len(),
{
    reveal(Seq::filter);
    if s.len() > 0 {
        lemma_filter_ext(s.drop_last(), p, q);
        assert(p(s.last()) == q(s.last()));
    }
}

/// A filter that every element passes keeps the sequence.
pub proof fn lemma_filter_all<A>(t: Seq<A>, p: spec_fn(A) -> bool)
    requires
        forall|i: int| 0 <= i < t.len() ==> p(#[trigger] t[i]),
    ensures
        t.filter(p) == t,
    decreases t.len(),
{
    reveal(Seq::filter);
    if t.len() > 0 {
        lemma_filter_all(t.drop_last(), p);
        assert(t.drop_last().push(t.last()) =~= t);
    } else {
        assert(t =~= Seq::<A>::empty());
    }
}

/// A filter that no element passes leaves nothing.
pub proof fn lemma_filter_none<A>(t: Seq<A>, p: spec_fn(A) -> bool)
    requires
        forall|i: int| 0 <= i < t.len() ==> !p(#[trigger] t[i]),
    ensures
        t.filter(p).len() == 0,
    decreases t.len(),
{
    reveal(Seq::filter);
    if t.len() > 0 {
        lemma_filter_none(t.drop_last(), p);
    }
}

/// The row of `s` that holds `id`, where one does.
pub open spec fn row_with_id<E: Record>(s: Seq<E>, id: Seq<char>) -> E {
    choose|r: E| s.contains(r) && r.id_of() == id
}

proof fn lemma_row_with_id<E: Record>(s: Seq<E>, i: int)
    requires
        unique_ids(s),
        0 <= i < s.len(),
    ensures
        row_with_id(s, s[i].id_of()) == s[i],
{
    assert(s.contains(s[i]));
    let c = row_with_id(s, s[i].id_of());
    let j = choose|j: int| 0 <= j < s.len() && s[j] == c;
    if j != i {
        assert(s[j].id_of() == s[i].id_of());
    }
}

/// Round trip: a row inserted under a fresh identifier and a fresh key is
/// what a fetch by its identifier returns, alone and unchanged.
pub proof fn lemma_insert_then_fetch<E: Record>(s: Seq<E>, e: E)
    requires
        !has_key(s, e.key_of()),
        !has_id(s, e.id_of()),
    ensures
        fetched(inserted(s, e), Some(e.id_of()), None, None) == seq![e],
{
    s.lemma_filter_push(e, id_is(e.id_of()));
    lemma_filter_none(s, id_is(e.id_of()));
    assert(s.filter(id_is(e.id_of())) =~= Seq::<E>::empty());
    assert(Seq::<E>::empty().push(e) =~= seq![e]);
}

/// Inserting two rows with the same natural key leaves exactly one row with
/// that key, whether or not one held it before.
pub proof fn lemma_insert_same_key_once<E: Record>(s: Seq<E>, a: E, b: E)
    requires
        unique_keys(s),
        a.key_of() == b.key_of(),
    ensures
        inserted(inserted(s, a), b).filter(key_is(a.key_of())).len() == 1,
{
    let k = a.key_of();
    if has_key(s, k) {
        let i = choose|i: int| 0 <= i < s.len() && s[i].key_of() == k;
        lemma_single_key(s, i);
    } else {
        let t = s.push(a);
        assert(t[s.len() as int].key_of() == k);
        assert(has_key(t, b.key_of()));
        s.lemma_filter_push(a, key_is(k));
        lemma_filter_none(s, key_is(k));
    }
}

proof fn lemma_single_key<E: Record>(s: Seq<E>, i: int)
    requires
        unique_keys(s),
        0 <= i < s.len(),
    ensures
        s.filter(key_is(s[i].key_of())).len() == 1,
    decreases s.len(),
{
    let k = s[i].key_of();
    let d = s.drop_last();
    assert(s =~= d.push(s.last()));
    d.lemma_filter_push(s.last(), key_is(k));
    if i == s.len() - 1 {
        assert forall|j: int| 0 <= j < d.len() implies !key_is(k)(#[trigger] d[j]) by {
            assert(s[j].key_of() != s[i].key_of());
        }
        lemma_filter_none(d, key_is(k));
    } else {
        assert(s.last().key_of() != k);
        assert(d[i] == s[i]);
        lemma_single_key(d, i);
    }
}

/// One table of the store: rows in insertion order, with unique identifiers
/// and unique natural keys.
pub struct Table<E> {
    rows: Vec<E>,
}

impl<E: Record> View for Table<E> {
    type V = Seq<E>;

    closed spec fn view(&self) -> Seq<E> {
        self.rows@
    }
}

impl<E: Record> Table<E> {
    pub open spec fn wf(&self) -> bool {
        unique_ids(self@) && unique_keys(self@)
    }

    pub fn new() -> (t: Self)
        ensures
            t@ == Seq::<E>::empty(),
            t.wf(),
    {
        Table { rows: Vec::new() }
    }

    pub fn len(&self) -> (n: usize)
        ensures
            n == self@.len(),
    {
        self.rows.len()
    }

    pub fn row(&self, i: usize) -> (r: &E)
        requires
            i < self@.len(),
        ensures
            *r == self@[i as int],
    {
        &self.rows[i]
    }

    fn position_of_key(&self, key: &String) -> (r: Option<usize>)
        ensures
            match r {
                Some(i) => i < self@.len() && self@[i as int].key_of() == key@,
                None => !has_key(self@, key@),
            },
    {
        let mut i: usize = 0;
        while i < self.rows.len()
            invariant
                i <= self.rows.len(),
                forall|j: int| 0 <= j < i ==> self.rows@[j].key_of() != key@,
            decreases self.rows.len() - i,
        {
            if self.rows[i].key().eq(key) {
                return Some(i);
            }
            i += 1;
        }
        None
    }

    fn position_of_id(&self, id: &String) -> (r: Option<usize>)
        ensures
            match r {
                Some(i) => i < self@.len() && self@[i as int].id_of() == id@,
                None => !has_id(self@, id@),
            },
    {
        let mut i: usize = 0;
        while i < self.rows.len()
            invariant
                i <= self.rows.len(),
                forall|j: int| 0 <= j < i ==> self.rows@[j].id_of() != id@,
            decreases self.rows.len() - i,
        {
            if self.rows[i].id().eq(id) {
                return Some(i);
            }
            i += 1;
        }
        None
    }

    /// A copy of the row that holds `id`, if any.
    pub fn get(&self, id: &str) -> (r: Option<E>)
        requires
            self.wf(),
        ensures
            r is None <==> !has_id(self@, id@),
            r matches Some(e) ==> e == row_with_id(self@, id@) && self@.contains(e),
    {
        let wanted: String = id.to_owned();
        match self.position_of_id(&wanted) {
            Some(i) => {
                proof {
                    lemma_row_with_id(self@, i as int);
                }
                Some(self.rows[i].duplicate())
            },
            None => None,
        }
    }

    /// A copy of the row that holds the natural key `key`, if any.
    pub fn get_by_key(&self, key: &str) -> (r: Option<E>)
        requires
            self.wf(),
        ensures
            r is None <==> !has_key(self@, key@),
            r matches Some(e) ==> self@.contains(e) && e.key_of() == key@,
    {
        let wanted: String = key.to_owned();
        match self.position_of_key(&wanted) {
            Some(i) => {
                assert(self@.contains(self@[i as int]));
                Some(self.rows[i].duplicate())
            },
            None => None,
        }
    }

    /// Rewrites the row that holds `id` unchanged but for its modification
    /// and access times, and gives the row as it was.
    pub fn touch(&mut self, id: &str, now: &String) -> (r: Option<E>)
        requires
            old(self).wf(),
        ensures
            final(self).wf(),
            r is None <==> !has_id(old(self)@, id@),
            r is None ==> final(self)@ == old(self)@,
            r matches Some(e) ==> e == row_with_id(old(self)@, id@) && rows_updated(
                final(self)@,
                old(self)@,
                e,
                now@,
            ),
    {
        match self.get(id) {
            Some(e) => {
                let ghost s = self@;
                proof {
                    let i = choose|i: int| 0 <= i < s.len() && s[i] == e;
                    assert forall|j: int| 0 <= j < s.len() && s[j].id_of() != e.id_of() implies s[j].key_of()
                        != e.key_of() by {
                        if j < i {
                            assert(s[j].key_of() != s[i].key_of());
                        } else if j > i {
                            assert(s[i].key_of() != s[j].key_of());
                        }
                    }
                }
                let _ = self.update(&e, now);
                Some(e)
            },
            None => None,
        }
    }

    /// Whether a row holds the natural key `key`.
    pub fn contains_key(&self, key: &String) -> (r: bool)
        ensures
            r == has_key(self@, key@),
    {
        self.position_of_key(key).is_some()
    }

    /// Whether a row holds the identifier `id`.
    pub fn contains_id(&self, id: &String) -> (r: bool)
        ensures
            r == has_id(self@, id@),
    {
        self.position_of_id(id).is_some()
    }

    /// Stores `e`. A row that already holds its natural key makes this a
    /// no-op (`Ok(false)`); a row that holds its identifier makes it an error.
    pub fn insert(&mut self, e: E) -> (r: Result<bool, StoreError>)
        requires
            old(self).wf(),
        ensures
            final(self).wf(),
            final(self)@ == (if r is Ok { inserted(old(self)@, e) } else { old(self)@ }),
            r == (if has_key(old(self)@, e.key_of()) {
                Ok::<bool, StoreError>(false)
            } else if has_id(old(self)@, e.id_of()) {
                Err(StoreError::DuplicateId)
            } else {
                Ok(true)
            }),
    {
        if self.contains_key(e.key()) {
            return Ok(false);
        }
        if self.contains_id(e.id()) {
            return Err(StoreError::DuplicateId);
        }
        self.rows.push(e);
        Ok(true)
    }

    fn rows_with_id(&self, id: &String) -> (r: Vec<E>)
        ensures
            r@ == self@.filter(id_is(id@)),
    {
        let mut out: Vec<E> = Vec::new();
        let mut i: usize = 0;
        while i < self.rows.len()
            invariant
                i <= self.rows.len(),
                out@ == self.rows@.take(i as int).filter(id_is::<E>(id@)),
            decreases self.rows.len() - i,
        {
            proof {
                assert(self.rows@.take(i + 1) =~= self.rows@.take(i as int).push(self.rows@[i as int]));
                self.rows@.take(i as int).lemma_filter_push(self.rows@[i as int], id_is::<E>(id@));
            }
            if self.rows[i].id().eq(id) {
                out.push(self.rows[i].duplicate());
            }
            i += 1;
        }
        proof {
            assert(self.rows@.take(self.rows@.len() as int) =~= self.rows@);
        }
        out
    }

    fn rows_with_key(&self, key: &String) -> (r: Vec<E>)
        ensures
            r@ == self@.filter(key_is(key@)),
    {
        let mut out: Vec<E> = Vec::new();
        let mut i: usize = 0;
        while i < self.rows.len()
            invariant
                i <= self.rows.len(),
                out@ == self.rows@.take(i as int).filter(key_is::<E>(key@)),
            decreases self.rows.len() - i,
        {
            proof {
                assert(self.rows@.take(i + 1) =~= self.rows@.take(i as int).push(self.rows@[i as int]));
                self.rows@.take(i as int).lemma_filter_push(self.rows@[i as int], key_is::<E>(key@));
            }
            if self.rows[i].key().eq(key) {
                out.push(self.rows[i].duplicate());
            }
            i += 1;
        }
        proof {
            assert(self.rows@.take(self.rows@.len() as int) =~= self.rows@);
        }
        out
    }

    fn first_rows(&self, n: usize) -> (r: Vec<E>)
        ensures
            r@ == (if n < self@.len() {
                self@.take(n as int)
            } else {
                self@
            }),
    {
        let mut out: Vec<E> = Vec::new();
        let mut i: usize = 0;
        while i < self.rows.len() && i < n
            invariant
                i <= self.rows.len(),
                i <= n,
                out@ == self.rows@.take(i as int),
            decreases self.rows.len() - i,
        {
            out.push(self.rows[i].duplicate());
            proof {
                assert(out@ =~= self.rows@.take(i + 1));
            }
            i += 1;
        }
        proof {
            assert(self.rows@.take(self.rows@.len() as int) =~= self.rows@);
        }
        out
    }

    /// The rows that match, by priority: `id`, else `limit`, else `key`, else all.
    pub fn fetch(&self, id: Option<&str>, limit: Option<i64>, key: Option<&str>) -> (r: Vec<E>)
        ensures
            r@ == fetched(
                self@,
                match id {
                    Some(i) => Some(i@),
                    None => None,
                },
                match limit {
                    Some(n) => Some(n as int),
                    None => None,
                },
                match key {
                    Some(k) => Some(k@),
                    None => None,
                },
            ),
    {
        match id {
            Some(i) => {
                let i: String = i.to_owned();
                return self.rows_with_id(&i);
            },
            None => {},
        }
        match limit {
            Some(n) => {
                if n < 0 || n as u64 >= self.rows.len() as u64 {
                    return self.first_rows(self.rows.len());
                }
                return self.first_rows(n as usize);
            },
            None => {},
        }
        match key {
            Some(k) => {
                let k: String = k.to_owned();
                self.rows_with_key(&k)
            },
            None => self.first_rows(self.rows.len()),
        }
    }

    /// Rewrites the row that holds `e`'s identifier from `e`, at time `now`;
    /// no row holds it: nothing changes. Refused where another row holds
    /// `e`'s natural key.
    pub fn update(&mut self, e: &E, now: &String) -> (r: Result<(), StoreError>)
        requires
            old(self).wf(),
        ensures
            final(self).wf(),
            r == (if update_conflicts(old(self)@, *e) {
                Err::<(), StoreError>(StoreError::DuplicateKey)
            } else {
                Ok(())
            }),
            r is Ok ==> rows_updated(final(self)@, old(self)@, *e, now@),
            r is Err ==> final(self)@ == old(self)@,
    {
        let ghost s = self@;
        match self.position_of_id(e.id()) {
            None => Ok(()),
            Some(i) => {
                match self.position_of_key(e.key()) {
                    Some(j) => {
                        if j != i {
                            return Err(StoreError::DuplicateKey);
                        }
                    },
                    None => {},
                }
                assert(!update_conflicts(s, *e));
                let row = self.rows[i].apply_update(e, now);
                proof {
                    row.lemma_update_of(&s[i as int], e, now@);
                }
                self.rows.set(i, row);
                Ok(())
            },
        }
    }

    /// Keeps the rows whose flag in `keep` is set.
    pub fn retain_marked(&mut self, keep: &Vec<bool>)
        requires
            old(self).wf(),
            keep@.len() == old(self)@.len(),
        ensures
            final(self).wf(),
            final(self)@ == kept(old(self)@, keep@),
    {
        let ghost s = self@;
        let mut out: Vec<E> = Vec::new();
        let mut i: usize = 0;
        while i < self.rows.len()
            invariant
                i <= self.rows.len(),
                self.rows@ == s,
                keep@.len() == s.len(),
                out@ == kept(s.take(i as int), keep@.take(i as int)),
            decreases self.rows.len() - i,
        {
            proof {
                assert(s.take(i + 1).drop_last() =~= s.take(i as int));
                assert(keep@.take(i + 1).drop_last() =~= keep@.take(i as int));
            }
            if keep[i] {
                out.push(self.rows[i].duplicate());
            }
            i += 1;
        }
        proof {
            assert(s.take(s.len() as int) =~= s);
            assert(keep@.take(s.len() as int) =~= keep@);
            lemma_kept_unique(s, keep@);
        }
        self.rows = out;
    }

    /// Removes the rows whose natural key is among `keys`, and gives their
    /// identifiers.
    pub fn remove_keys(&mut self, keys: &Vec<String>) -> (r: Vec<String>)
        requires
            old(self).wf(),
        ensures
            final(self).wf(),
            final(self)@ == old(self)@.filter(key_absent(texts(keys@))),
            texts(r@) == ids_of(old(self)@.filter(key_present(texts(keys@)))),
    {
        let ghost t = self@;
        let mut keep: Vec<bool> = Vec::new();
        let mut removed: Vec<String> = Vec::new();
        let mut i: usize = 0;
        while i < self.rows.len()
            invariant
                self@ == t,
                i <= t.len(),
                keep@.len() == i,
                forall|j: int| 0 <= j < i ==> keep@[j] == key_absent(texts(keys@))(t[j]),
                texts(removed@) == ids_of(t.take(i as int).filter(key_present(texts(keys@)))),
            decreases t.len() - i,
        {
            let gone = holds_text(keys, self.rows[i].key());
            proof {
                assert(t.take(i + 1) =~= t.take(i as int).push(t[i as int]));
                t.take(i as int).lemma_filter_push(t[i as int], key_present(texts(keys@)));
            }
            let ghost before = removed@;
            if gone {
                removed.push(self.rows[i].id().clone());
                proof {
                    assert(texts(removed@) =~= texts(before).push(t[i as int].id_of()));
                    assert(ids_of(t.take(i as int).filter(key_present(texts(keys@))).push(t[i as int]))
                        =~= ids_of(t.take(i as int).filter(key_present(texts(keys@)))).push(
                        t[i as int].id_of(),
                    ));
                }
            }
            keep.push(!gone);
            i += 1;
        }
        proof {
            assert(t.take(t.len() as int) =~= t);
            lemma_kept_filter(t, keep@, key_absent(texts(keys@)));
        }
        self.retain_marked(&keep);
        removed
    }

    /// Removes the row that holds `id`, if any.
    pub fn delete(&mut self, id: &str)
        requires
            old(self).wf(),
        ensures
            final(self).wf(),
            final(self)@ == old(self)@.filter(|r: E| r.id_of() != id@),
    {
        let id: String = id.to_owned();
        let ghost s = self@;
        let mut keep: Vec<bool> = Vec::new();
        let mut i: usize = 0;
        while i < self.rows.len()
            invariant
                i <= self.rows.len(),
                self@ == s,
                keep@.len() == i,
                forall|k: int| 0 <= k < i ==> keep@[k] == (s[k].id_of() != id@),
            decreases self.rows.len() - i,
        {
            let same = self.rows[i].id().eq(&id);
            keep.push(!same);
            i += 1;
        }
        proof {
            lemma_kept_filter(s, keep@, |r: E| r.id_of() != id@);
        }
        self.retain_marked(&keep);
    }
}

} // verus!
