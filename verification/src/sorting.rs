//! Sorting strings in the order of `String`'s `Ord`: lexicographic by
//! character (UTF-8 keeps the order of code points, so this is also the
//! order of the bytes).

use vstd::prelude::*;

use crate::text::chars_of;

verus! {

/// `a` comes before `b` or equals it, lexicographically by character.
pub open spec fn chars_le(a: Seq<char>, b: Seq<char>) -> bool
    decreases a.len(),
{
    if a.len() == 0 {
        true
    } else if b.len() == 0 {
        false
    } else if a[0] != b[0] {
        a[0] < b[0]
    } else {
        chars_le(a.drop_first(), b.drop_first())
    }
}

/// The character views of a sequence of strings.
pub open spec fn string_views(v: Seq<String>) -> Seq<Seq<char>> {
    v.map_values(|s: String| s@)
}

/// Every string of `v` comes before or equals every later one.
pub open spec fn sorted_by_chars(v: Seq<String>) -> bool {
    forall|i: int, j: int| 0 <= i < j < v.len() ==> chars_le(#[trigger] v[i]@, #[trigger] v[j]@)
}

/// Any two character sequences are ordered one way or the other.
pub proof fn lemma_chars_le_total(a: Seq<char>, b: Seq<char>)
    ensures
        chars_le(a, b) || chars_le(b, a),
    decreases a.len(),
{
    if a.len() > 0 && b.len() > 0 && a[0] == b[0] {
        lemma_chars_le_total(a.drop_first(), b.drop_first());
    }
}

/// The order is transitive.
pub proof fn lemma_chars_le_trans(a: Seq<char>, b: Seq<char>, c: Seq<char>)
    requires
        chars_le(a, b),
        chars_le(b, c),
    ensures
        chars_le(a, c),
    decreases a.len(),
{
    if a.len() > 0 && b.len() > 0 && c.len() > 0 && a[0] == b[0] && b[0] == c[0] {
        lemma_chars_le_trans(a.drop_first(), b.drop_first(), c.drop_first());
    }
}

proof fn lemma_empty_multiset(s: Seq<Seq<char>>)
    requires
        s.len() == 0,
    ensures
        s.to_multiset() == vstd::multiset::Multiset::<Seq<char>>::empty(),
{
    s.to_multiset_ensures();
    vstd::multiset::lemma_multiset_empty_len(s.to_multiset());
}

/// Whether `a` comes before `b` or equals it.
pub fn string_le(a: &String, b: &String) -> (r: bool)
    ensures
        r == chars_le(a@, b@),
{
    let x = chars_of(a.as_str());
    let y = chars_of(b.as_str());
    let mut i: usize = 0;
    proof {
        assert(x@.skip(0) =~= x@);
        assert(y@.skip(0) =~= y@);
    }
    while i < x.len() && i < y.len() && x[i] == y[i]
        invariant
            i <= x@.len(),
            i <= y@.len(),
            chars_le(x@, y@) == chars_le(x@.skip(i as int), y@.skip(i as int)),
        decreases x@.len() - i,
    {
        proof {
            assert(x@.skip(i as int).drop_first() =~= x@.skip(i + 1));
            assert(y@.skip(i as int).drop_first() =~= y@.skip(i + 1));
        }
        i = i + 1;
    }
    if i == x.len() {
        true
    } else if i == y.len() {
        false
    } else {
        proof {
            assert(x@.skip(i as int)[0] == x@[i as int]);
            assert(y@.skip(i as int)[0] == y@[i as int]);
        }
        x[i] < y[i]
    }
}

/// `v` sorted: the same strings, each in order.
pub fn sort_strings(v: Vec<String>) -> (r: Vec<String>)
    ensures
        sorted_by_chars(r@),
        string_views(r@).to_multiset() == string_views(v@).to_multiset(),
{
    let ghost orig = string_views(v@).to_multiset();
    let mut v = v;
    let mut r: Vec<String> = Vec::new();
    proof {
        lemma_empty_multiset(string_views(r@));
        assert(string_views(r@).to_multiset().add(string_views(v@).to_multiset()) =~= orig);
    }
    while v.len() > 0
        invariant
            sorted_by_chars(r@),
            string_views(r@).to_multiset().add(string_views(v@).to_multiset()) == orig,
        decreases v@.len(),
    {
        let ghost before_v = v@;
        let s = match v.pop() {
            Some(s) => s,
            None => {
                proof {
                    assert(false);
                }
                return r;
            },
        };
        proof {
            assert(before_v =~= v@.push(s));
            assert(string_views(before_v) =~= string_views(v@).push(s@));
        }
        let mut p: usize = 0;
        while p < r.len() && string_le(&r[p], &s)
            invariant
                p <= r@.len(),
                forall|k: int| 0 <= k < p ==> chars_le(#[trigger] r@[k]@, s@),
            decreases r@.len() - p,
        {
            p = p + 1;
        }
        let ghost old_r = r@;
        proof {
            if p < r@.len() {
                lemma_chars_le_total(r@[p as int]@, s@);
            }
            assert forall|j: int| p <= j < old_r.len() implies chars_le(s@, #[trigger] old_r[j]@) by {
                if j > p {
                    assert(chars_le(old_r[p as int]@, old_r[j]@));
                    lemma_chars_le_trans(s@, old_r[p as int]@, old_r[j]@);
                }
            }
        }
        r.insert(p, s);
        proof {
            assert(r@ == old_r.insert(p as int, s));
            assert(string_views(r@) =~= string_views(old_r).insert(p as int, s@));
            vstd::seq_lib::to_multiset_insert(string_views(old_r), p as int, s@);
            vstd::seq_lib::to_multiset_build(string_views(v@), s@);
            assert forall|i: int, j: int| 0 <= i < j < r@.len() implies chars_le(
                #[trigger] r@[i]@,
                #[trigger] r@[j]@,
            ) by {
                if j < p {
                } else if j == p {
                } else if i < p {
                    assert(chars_le(old_r[i]@, s@));
                    assert(chars_le(s@, old_r[j - 1]@));
                    lemma_chars_le_trans(old_r[i]@, s@, old_r[j - 1]@);
                } else if i == p {
                } else {
                }
            }
            assert(string_views(r@).to_multiset().add(string_views(v@).to_multiset()) =~= orig);
        }
    }
    proof {
        lemma_empty_multiset(string_views(v@));
        assert(string_views(r@).to_multiset().add(string_views(v@).to_multiset()) =~= string_views(
            r@,
        ).to_multiset());
    }
    r
}

} // verus!
