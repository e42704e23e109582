use vstd::prelude::*;
use vstd::seq_lib::{to_multiset_build, to_multiset_insert};
use vstd::string::StrSliceExecFns;

verus! {

/// Whether `p` is a prefix of `s`.
pub open spec fn is_prefix(p: Seq<char>, s: Seq<char>) -> bool {
    p.len() <= s.len() && s.take(p.len() as int) == p
}

/// Whether `s` begins with `p`, character by character.
pub fn starts_with(s: &str, p: &str) -> (r: bool)
    ensures
        r == is_prefix(p@, s@),
{
    let n = s.unicode_len();
    let m = p.unicode_len();
    if m > n {
        return false;
    }
    let mut i: usize = 0;
    while i < m
        invariant
            m <= n,
            n == s@.len(),
            m == p@.len(),
            i <= m,
            forall|k: int| 0 <= k < i ==> s@[k] == p@[k],
        decreases m - i,
    {
        if s.get_char(i) != p.get_char(i) {
            assert(s@.take(m as int)[i as int] != p@[i as int]);
            return false;
        }
        i += 1;
    }
    assert(s@.take(m as int) =~= p@);
    true
}

/// Whether `s` ends with `p`, character by character.
pub fn ends_with(s: &str, p: &str) -> (r: bool)
    ensures
        r == (p@.len() <= s@.len() && s@.skip(s@.len() - p@.len()) == p@),
{
    let n = s.unicode_len();
    let m = p.unicode_len();
    if m > n {
        return false;
    }
    let d = n - m;
    let mut i: usize = 0;
    while i < m
        invariant
            m <= n,
            d == n - m,
            n == s@.len(),
            m == p@.len(),
            i <= m,
            forall|k: int| 0 <= k < i ==> s@[d + k] == p@[k],
        decreases m - i,
    {
        if s.get_char(d + i) != p.get_char(i) {
            assert(s@.skip(d as int)[i as int] != p@[i as int]);
            return false;
        }
        i += 1;
    }
    assert(s@.skip(d as int) =~= p@);
    true
}

/// The views of a list of strings.
pub open spec fn texts(v: Seq<String>) -> Seq<Seq<char>> {
    v.map_values(|x: String| x@)
}

/// Whether `v` holds a string equal to `x`.
pub fn holds_text(v: &Vec<String>, x: &String) -> (r: bool)
    ensures
        r == texts(v@).contains(x@),
{
    let mut i: usize = 0;
    while i < v.len()
        invariant
            i <= v.len(),
            forall|k: int| 0 <= k < i ==> v@[k]@ != x@,
        decreases v.len() - i,
    {
        if v[i].eq(x) {
            assert(texts(v@)[i as int] == x@);
            return true;
        }
        i += 1;
    }
    assert forall|k: int| 0 <= k < texts(v@).len() implies texts(v@)[k] != x@ by {
        assert(texts(v@)[k] == v@[k]@);
    }
    false
}

/// Lexicographic order on texts by character code, the order of `str`.
pub open spec fn text_le(a: Seq<char>, b: Seq<char>) -> bool
    decreases a.len(),
{
    if a.len() == 0 {
        true
    } else if b.len() == 0 {
        false
    } else if a[0] != b[0] {
        (a[0] as int) < (b[0] as int)
    } else {
        text_le(a.drop_first(), b.drop_first())
    }
}

pub proof fn lemma_text_le_total(a: Seq<char>, b: Seq<char>)
    ensures
        text_le(a, b) || text_le(b, a),
    decreases a.len(),
{
    if a.len() > 0 && b.len() > 0 && a[0] == b[0] {
        lemma_text_le_total(a.drop_first(), b.drop_first());
    } else if a.len() > 0 && b.len() > 0 {
    }
}

pub proof fn lemma_text_le_transitive(a: Seq<char>, b: Seq<char>, c: Seq<char>)
    requires
        text_le(a, b),
        text_le(b, c),
    ensures
        text_le(a, c),
    decreases a.len(),
{
    if a.len() > 0 && b.len() > 0 && c.len() > 0 && a[0] == b[0] && b[0] == c[0] {
        lemma_text_le_transitive(a.drop_first(), b.drop_first(), c.drop_first());
    }
}

/// Whether `a` comes no later than `b` in the order of texts.
pub fn text_le_exec(a: &str, b: &str) -> (r: bool)
    ensures
        r == text_le(a@, b@),
{
    let n = a.unicode_len();
    let m = b.unicode_len();
    let mut i: usize = 0;
    assert(a@.skip(0) =~= a@);
    assert(b@.skip(0) =~= b@);
    while i < n && i < m
        invariant
            i <= n,
            i <= m,
            n == a@.len(),
            m == b@.len(),
            text_le(a@, b@) == text_le(a@.skip(i as int), b@.skip(i as int)),
        decreases n - i,
    {
        let x = a.get_char(i);
        let y = b.get_char(i);
        proof {
            assert(a@.skip(i as int)[0] == x);
            assert(b@.skip(i as int)[0] == y);
            assert(a@.skip(i as int).drop_first() =~= a@.skip(i + 1));
            assert(b@.skip(i as int).drop_first() =~= b@.skip(i + 1));
        }
        if x != y {
            return (x as u32) < (y as u32);
        }
        i += 1;
    }
    proof {
        if i == n {
            assert(a@.skip(i as int).len() == 0);
        } else {
            assert(b@.skip(i as int).len() == 0);
        }
    }
    i == n
}

pub open spec fn texts_sorted(s: Seq<Seq<char>>) -> bool {
    forall|p: int, q: int| 0 <= p < q < s.len() ==> text_le(s[p], s[q])
}

/// The strings of `v` in ascending order.
pub fn sort_texts(v: &Vec<String>) -> (r: Vec<String>)
    ensures
        texts_sorted(texts(r@)),
        texts(r@).to_multiset() == texts(v@).to_multiset(),
{
    let mut out: Vec<String> = Vec::new();
    let mut i: usize = 0;
    assert(texts(out@) =~= texts(v@.take(0)));
    while i < v.len()
        invariant
            i <= v@.len(),
            texts_sorted(texts(out@)),
            texts(out@).to_multiset() == texts(v@.take(i as int)).to_multiset(),
        decreases v@.len() - i,
    {
        let x = &v[i];
        let mut j: usize = 0;
        while j < out.len() && text_le_exec(&out[j], x)
            invariant
                j <= out@.len(),
                forall|p: int| 0 <= p < j ==> text_le(out@[p]@, x@),
            decreases out@.len() - j,
        {
            j += 1;
        }
        let ghost before = out@;
        proof {
            assert forall|q: int| j <= q < before.len() implies text_le(x@, before[q]@) by {
                lemma_text_le_total(before[j as int]@, x@);
                assert(texts(before)[j as int] == before[j as int]@);
                assert(texts(before)[q] == before[q]@);
                if q > j {
                    assert(text_le(texts(before)[j as int], texts(before)[q]));
                    lemma_text_le_transitive(x@, before[j as int]@, before[q]@);
                }
            }
        }
        out.insert(j, x.clone());
        proof {
            assert(texts(out@) =~= texts(before).insert(j as int, x@));
            to_multiset_insert(texts(before), j as int, x@);
            assert(texts(v@.take(i + 1)) =~= texts(v@.take(i as int)).push(x@));
            to_multiset_build(texts(v@.take(i as int)), x@);
            assert forall|p: int, q: int| 0 <= p < q < texts(out@).len() implies text_le(
                texts(out@)[p],
                texts(out@)[q],
            ) by {
                let t = texts(out@);
                let b = texts(before);
                if q < j {
                    assert(t[p] == b[p] && t[q] == b[q]);
                } else if q == j {
                    assert(t[p] == before[p]@);
                } else if p == j {
                    assert(t[q] == before[q - 1]@);
                } else if p < j {
                    assert(t[p] == before[p]@);
                    assert(t[q] == before[q - 1]@);
                    assert(text_le(t[p], x@));
                    lemma_text_le_transitive(t[p], x@, t[q]);
                } else {
                    assert(t[p] == b[p - 1] && t[q] == b[q - 1]);
                }
            }
        }
        i += 1;
    }
    proof {
        assert(v@.take(v@.len() as int) =~= v@);
    }
    out
}

} // verus!
