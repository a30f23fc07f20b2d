//! Sorting lists by a numeric key from the largest down, keeping the order
//! of entries with equal keys, as a stable sort does.
use vstd::prelude::*;

verus! {

/// Where an entry of key `key` goes in a list ordered from the largest key
/// down: after every entry whose key is as large or larger.
pub open spec fn first_smaller<T>(s: Seq<(u128, T)>, key: u128) -> int
    decreases s.len(),
{
    if s.len() == 0 {
        0
    } else if s[0].0 < key {
        0
    } else {
        1 + first_smaller(s.drop_first(), key)
    }
}

/// The entries ordered from the largest key down; entries of equal key keep
/// their order.
pub open spec fn sorted_desc<T>(s: Seq<(u128, T)>) -> Seq<(u128, T)>
    decreases s.len(),
{
    if s.len() == 0 {
        s
    } else {
        let p = sorted_desc(s.drop_last());
        p.insert(first_smaller(p, s.last().0), s.last())
    }
}

/// Whether the keys go from the largest down.
pub open spec fn keys_descending<T>(s: Seq<(u128, T)>) -> bool {
    forall|i: int, j: int| 0 <= i < j < s.len() ==> s[i].0 >= s[j].0
}

proof fn lemma_first_smaller_bounds<T>(s: Seq<(u128, T)>, key: u128)
    ensures
        0 <= first_smaller(s, key) <= s.len(),
        forall|m: int| 0 <= m < first_smaller(s, key) ==> s[m].0 >= key,
        first_smaller(s, key) < s.len() ==> s[first_smaller(s, key)].0 < key,
    decreases s.len(),
{
    if s.len() > 0 && s[0].0 >= key {
        lemma_first_smaller_bounds(s.drop_first(), key);
        assert forall|m: int| 0 <= m < first_smaller(s, key) implies s[m].0 >= key by {
            if m > 0 {
                assert(s[m] == s.drop_first()[m - 1]);
            }
        }
    }
}

proof fn lemma_first_smaller_is<T>(s: Seq<(u128, T)>, key: u128, j: int)
    requires
        0 <= j <= s.len(),
        forall|m: int| 0 <= m < j ==> s[m].0 >= key,
        j < s.len() ==> s[j].0 < key,
    ensures
        first_smaller(s, key) == j,
    decreases j,
{
    if j > 0 {
        lemma_first_smaller_is(s.drop_first(), key, j - 1);
    }
}

/// Sorting gives keys from the largest down, and neither adds, drops nor
/// repeats an entry.
pub proof fn lemma_sorted_desc<T>(s: Seq<(u128, T)>)
    ensures
        keys_descending(sorted_desc(s)),
        sorted_desc(s).to_multiset() == s.to_multiset(),
        sorted_desc(s).len() == s.len(),
    decreases s.len(),
{
    if s.len() > 0 {
        let p = s.drop_last();
        let x = s.last();
        lemma_sorted_desc(p);
        let q = sorted_desc(p);
        let j = first_smaller(q, x.0);
        lemma_first_smaller_bounds(q, x.0);
        q.insert_ensures(j, x);
        let t = q.insert(j, x);
        assert forall|a: int, b: int| 0 <= a < b < t.len() implies t[a].0 >= t[b].0 by {
            if a < j && b < j {
            } else if a < j && b == j {
            } else if a < j {
                assert(t[b] == q[b - 1]);
            } else if a == j {
                assert(t[b] == q[b - 1]);
            } else {
                assert(t[a] == q[a - 1]);
                assert(t[b] == q[b - 1]);
            }
        }
        vstd::seq_lib::to_multiset_insert(q, j, x);
        assert(s == p.push(x));
        vstd::seq_lib::to_multiset_build(p, x);
    }
}

/// Orders the entries from the largest key down, stably.
pub fn sort_desc<T>(v: &mut Vec<(u128, T)>)
    ensures
        final(v)@ == sorted_desc(old(v)@),
{
    let ghost orig = v@;
    assert(orig.len() == v.len());
    let mut src: Vec<(u128, T)> = Vec::new();
    std::mem::swap(&mut src, v);
    let mut out: Vec<(u128, T)> = Vec::new();
    let mut k: usize = 0;
    while src.len() > 0
        invariant
            k <= orig.len(),
            orig.len() <= usize::MAX,
            src@ == orig.skip(k as int),
            out@ == sorted_desc(orig.take(k as int)),
        decreases src@.len(),
    {
        let x = src.remove(0);
        proof {
            assert(x == orig[k as int]);
            assert(orig.take(k + 1).drop_last() =~= orig.take(k as int));
            assert(orig.take(k + 1).last() == orig[k as int]);
            assert(src@ =~= orig.skip(k + 1));
        }
        let mut j: usize = 0;
        while j < out.len() && out[j].0 >= x.0
            invariant
                j <= out@.len(),
                forall|m: int| 0 <= m < j ==> out@[m].0 >= x.0,
            decreases out@.len() - j,
        {
            j = j + 1;
        }
        proof {
            lemma_first_smaller_is(out@, x.0, j as int);
        }
        out.insert(j, x);
        k = k + 1;
    }
    proof {
        assert(orig.take(k as int) =~= orig);
    }
    *v = out;
}

} // verus!
