//! A small most-recently-used list with a fixed capacity.
use std::collections::vec_deque::Iter;
use std::collections::VecDeque;
use vstd::prelude::*;
use vstd::std_specs::iter::IteratorSpec;

verus! {

/// A list of distinct values, most recently used first, holding at most
/// `capacity` of them.
pub struct LruVector<T: View> {
    capacity: usize,
    data: VecDeque<T>,
    /// The `put` and `get` calls made on the list so far, oldest first.
    steps: Ghost<Seq<LruStep<T::V>>>,
}

/// Index of the first element of `s` equal to `v`, or `s.len()` when there is none.
pub open spec fn first_index_of<T>(s: Seq<T>, v: T) -> int
    decreases s.len(),
{
    if s.len() == 0 {
        0
    } else if s[0] == v {
        0
    } else {
        1 + first_index_of(s.drop_first(), v)
    }
}

/// The sequence after moving `v` to the front: `v` first, then `s` without its
/// first occurrence of `v`.
pub open spec fn move_to_front<T>(s: Seq<T>, v: T) -> Seq<T> {
    let i = first_index_of(s, v);
    if i < s.len() {
        seq![v] + s.remove(i)
    } else {
        seq![v] + s
    }
}

/// The values after putting `v` into a list holding `s` with capacity `cap`.
pub open spec fn put_result<T>(s: Seq<T>, v: T, cap: nat) -> Seq<T> {
    let m = move_to_front(s, v);
    if m.len() > cap {
        m.drop_last()
    } else {
        m
    }
}

/// The value that putting `v` into a list holding `s` with capacity `cap` evicts.
pub open spec fn put_evicted<T>(s: Seq<T>, v: T, cap: nat) -> Option<T> {
    let m = move_to_front(s, v);
    if m.len() > cap {
        Some(m.last())
    } else {
        None
    }
}

/// The first index of a value is within the list, holds the value if it is
/// there, and no earlier index holds it.
pub proof fn lemma_first_index_of<T>(s: Seq<T>, v: T)
    ensures
        0 <= first_index_of(s, v) <= s.len(),
        first_index_of(s, v) < s.len() ==> s[first_index_of(s, v)] == v,
        forall|j: int| 0 <= j < first_index_of(s, v) ==> s[j] != v,
        first_index_of(s, v) == s.len() <==> !s.contains(v),
    decreases s.len(),
{
    if s.len() > 0 && s[0] != v {
        lemma_first_index_of(s.drop_first(), v);
        assert forall|j: int| 0 <= j < first_index_of(s, v) implies s[j] != v by {
            if j > 0 {
                assert(s[j] == s.drop_first()[j - 1]);
            }
        }
        if !s.drop_first().contains(v) {
            assert forall|j: int| 0 <= j < s.len() implies s[j] != v by {
                if j > 0 {
                    assert(s[j] == s.drop_first()[j - 1]);
                }
            }
        } else {
            let k = choose|k: int| 0 <= k < s.drop_first().len() && s.drop_first()[k] == v;
            assert(s[k + 1] == v);
        }
    }
}

/// Values that can be told apart by their views.
pub trait SameView: View + Sized {
    /// Whether the two values have the same view.
    fn same_view(&self, other: &Self) -> (r: bool)
        ensures
            r == (self@ == other@),
    ;
}

impl SameView for String {
    fn same_view(&self, other: &Self) -> (r: bool) {
        crate::text::str_equals(self.as_str(), other.as_str())
    }
}

impl SameView for u64 {
    fn same_view(&self, other: &Self) -> (r: bool) {
        *self == *other
    }
}

/// The views of the values, in order.
pub open spec fn views<T: View>(s: Seq<T>) -> Seq<T::V> {
    s.map_values(|x: T| x@)
}

impl<T: View> LruVector<T> {
    #[verifier::type_invariant]
    spec fn inv(self) -> bool {
        &&& self.data@.len() <= self.capacity
        &&& views(self.data@).no_duplicates()
        &&& views(self.data@) == after_steps(self.steps@, self.capacity as nat)
    }

    /// The `put` and `get` calls made on the list since it was made, oldest
    /// first.
    pub closed spec fn history(&self) -> Seq<LruStep<T::V>> {
        self.steps@
    }

    /// The values, most recently used first.
    pub closed spec fn view(&self) -> Seq<T::V> {
        views(self.data@)
    }

    /// The capacity given at construction.
    pub closed spec fn cap(&self) -> nat {
        self.capacity as nat
    }
}

impl<T: SameView> LruVector<T> {
    /// An empty list that holds at most `capacity` values.
    pub fn new(capacity: usize) -> (r: Self)
        ensures
            r@ == Seq::<T::V>::empty(),
            r.cap() == capacity,
            r.history() == Seq::<LruStep<T::V>>::empty(),
    {
        let data: VecDeque<T> = VecDeque::with_capacity(capacity);
        assert(views(data@) =~= Seq::<T::V>::empty());
        LruVector { capacity, data, steps: Ghost(Seq::empty()) }
    }

    /// Takes the list's parts out, leaving an empty list of no capacity.
    fn take_parts(&mut self) -> (r: (usize, VecDeque<T>, Ghost<Seq<LruStep<T::V>>>))
        ensures
            r.0 == old(self).capacity,
            r.1@ == old(self).data@,
            r.2@ == old(self).steps@,
            r.1@.len() <= r.0,
            views(r.1@).no_duplicates(),
            views(r.1@) == after_steps(r.2@, r.0 as nat),
    {
        proof {
            use_type_invariant(&*self);
        }
        let data: VecDeque<T> = VecDeque::new();
        assert(views(data@) =~= Seq::<T::V>::empty());
        let mut other = LruVector { capacity: 0, data, steps: Ghost(Seq::empty()) };
        std::mem::swap(self, &mut other);
        let LruVector { capacity, data, steps } = other;
        (capacity, data, steps)
    }

    /// The capacity given at construction.
    pub fn capacity(&self) -> (r: usize)
        ensures
            r == self.cap(),
    {
        self.capacity
    }

    /// Index of the first value with the view of `value`, or the length when
    /// none has it.
    fn position(data: &VecDeque<T>, value: &T) -> (r: usize)
        ensures
            r == first_index_of(views(data@), value@),
    {
        proof {
            lemma_first_index_of(views(data@), value@);
        }
        let mut i: usize = 0;
        while i < data.len()
            invariant
                i <= data@.len(),
                forall|j: int| 0 <= j < i ==> views(data@)[j] != value@,
                0 <= first_index_of(views(data@), value@) <= data@.len(),
                first_index_of(views(data@), value@) < data@.len() ==> views(data@)[first_index_of(
                    views(data@),
                    value@,
                )] == value@,
                forall|j: int| 0 <= j < first_index_of(views(data@), value@) ==> views(data@)[j] != value@,
            decreases data@.len() - i,
        {
            assert(views(data@)[i as int] == data@[i as int]@);
            if data[i].same_view(value) {
                return i;
            }
            i = i + 1;
        }
        i
    }

    /// Looks `value` up; when a value with its view is there, that value
    /// becomes the most recently used one and is handed back.
    pub fn get(&mut self, value: &T) -> (r: Option<&T>)
        ensures
            old(self)@.contains(value@) ==> {
                &&& r matches Some(x) && x@ == value@
                &&& final(self)@ == move_to_front(old(self)@, value@)
            },
            !old(self)@.contains(value@) ==> r is None && final(self)@ == old(self)@,
            final(self).cap() == old(self).cap(),
            final(self).history() == old(self).history().push(LruStep::Get(value@)),
    {
        proof {
            use_type_invariant(&*self);
            lemma_first_index_of(self@, value@);
        }
        let pos = Self::position(&self.data, value);
        let (capacity, mut data, steps) = self.take_parts();
        let ghost s = data@;
        let ghost new_steps = steps@.push(LruStep::Get(value@));
        proof {
            assert(new_steps.drop_last() =~= steps@);
        }
        if pos < data.len() {
            let item = data.remove(pos).unwrap();
            data.push_front(item);
            proof {
                lemma_move_to_front_no_duplicates(views(s), value@);
                assert(views(s.remove(pos as int)) =~= views(s).remove(pos as int));
                assert(views(data@) =~= move_to_front(views(s), value@));
            }
            *self = LruVector { capacity, data, steps: Ghost(new_steps) };
            Some(&self.data[0])
        } else {
            *self = LruVector { capacity, data, steps: Ghost(new_steps) };
            None
        }
    }

    /// Puts `value` in front, in place of a value with its view; returns the
    /// least recently used value when the capacity is exceeded.
    pub fn put(&mut self, value: T) -> (r: Option<T>)
        ensures
            final(self)@ == put_result(old(self)@, value@, old(self).cap()),
            match put_evicted(old(self)@, value@, old(self).cap()) {
                Some(e) => r matches Some(x) && x@ == e,
                None => r is None,
            },
            final(self).cap() == old(self).cap(),
            final(self)@.len() <= final(self).cap(),
            final(self)@.no_duplicates(),
            final(self).history() == old(self).history().push(LruStep::Put(value@)),
    {
        proof {
            use_type_invariant(&*self);
            lemma_first_index_of(self@, value@);
        }
        let ghost v = value@;
        let pos = Self::position(&self.data, &value);
        let (capacity, mut data, steps) = self.take_parts();
        let ghost s = data@;
        let ghost new_steps = steps@.push(LruStep::Put(v));
        proof {
            assert(new_steps.drop_last() =~= steps@);
        }
        if pos < data.len() {
            data.remove(pos);
            proof {
                assert(views(data@) =~= views(s).remove(pos as int));
            }
        }
        data.push_front(value);
        proof {
            lemma_move_to_front_no_duplicates(views(s), v);
            assert(views(data@) =~= move_to_front(views(s), v));
        }
        let ghost m = data@;
        let evicted = if data.len() > capacity {
            data.pop_back()
        } else {
            None
        };
        proof {
            if move_to_front(views(s), v).len() > capacity {
                assert(views(data@) =~= move_to_front(views(s), v).drop_last());
                assert(views(m).last() == m.last()@);
            }
        }
        *self = LruVector { capacity, data, steps: Ghost(new_steps) };
        evicted
    }

    /// Whether a value with the view of `value` is in the list.
    pub fn contains(&self, value: &T) -> (r: bool)
        ensures
            r == self@.contains(value@),
    {
        proof {
            lemma_first_index_of(self@, value@);
        }
        Self::position(&self.data, value) < self.data.len()
    }

    /// How many values the list holds.
    pub fn len(&self) -> (r: usize)
        ensures
            r == self@.len(),
            r <= self.cap(),
    {
        proof {
            use_type_invariant(self);
        }
        self.data.len()
    }

    /// Whether the list holds nothing.
    pub fn is_empty(&self) -> (r: bool)
        ensures
            r == (self@.len() == 0),
    {
        self.data.len() == 0
    }

    /// The values, most recently used first.
    pub fn iter(&self) -> (r: Iter<'_, T>)
        ensures
            views(r.remaining().map_values(|x: &T| *x)) == self@,
            self@ == first_n(by_recency(used_values(self.history(), self.cap())), self.cap()),
    {
        proof {
            use_type_invariant(self);
            lemma_lru_holds_most_recent(self.history(), self.cap());
        }
        let r = self.data.iter();
        assert(r.remaining().map_values(|x: &T| *x) =~= self.data@);
        r
    }
}

/// Moving a value to the front keeps the values distinct.
#[verifier::spinoff_prover]
#[verifier::rlimit(40)]
pub proof fn lemma_move_to_front_no_duplicates<T>(s: Seq<T>, v: T)
    requires
        s.no_duplicates(),
    ensures
        move_to_front(s, v).no_duplicates(),
        move_to_front(s, v)[0] == v,
        move_to_front(s, v).len() == if s.contains(v) { s.len() } else { s.len() + 1 },
{
    lemma_first_index_of(s, v);
    let i = first_index_of(s, v);
    let rest = if i < s.len() { s.remove(i) } else { s };
    assert(!rest.contains(v)) by {
        if i < s.len() {
            assert forall|j: int| 0 <= j < rest.len() implies rest[j] != v by {
                if j < i {
                } else {
                    assert(rest[j] == s[j + 1]);
                }
            }
        }
    }
    assert(rest.no_duplicates()) by {
        if i < s.len() {
            assert forall|a: int, b: int| 0 <= a < rest.len() && 0 <= b < rest.len() && a != b
                implies rest[a] != rest[b] by {
                let sa = if a < i { a } else { a + 1 };
                let sb = if b < i { b } else { b + 1 };
                assert(rest[a] == s[sa]);
                assert(rest[b] == s[sb]);
            }
        }
    }
    let m = seq![v] + rest;
    assert(m == move_to_front(s, v));
    assert(m.len() == rest.len() + 1);
    assert forall|a: int, b: int| 0 <= a < m.len() && 0 <= b < m.len() && a != b
        implies m[a] != m[b] by {
        if a == 0 {
            assert(m[b] == rest[b - 1]);
        } else if b == 0 {
            assert(m[a] == rest[a - 1]);
        } else {
            assert(m[a] == rest[a - 1]);
            assert(m[b] == rest[b - 1]);
        }
    }
}

/// After a put into a list with room for at least one value, the value is
/// present and the most recently used.
pub proof fn lemma_put_makes_most_recent<T>(s: Seq<T>, v: T, cap: nat)
    requires
        cap >= 1,
        s.len() <= cap,
        s.no_duplicates(),
    ensures
        put_result(s, v, cap)[0] == v,
        put_result(s, v, cap).contains(v),
        put_result(s, v, cap).len() <= cap,
{
    lemma_move_to_front_no_duplicates(s, v);
    assert(put_result(s, v, cap)[0] == v);
}

/// Putting a value that is already present evicts nothing and keeps the length.
pub proof fn lemma_put_present_evicts_nothing<T>(s: Seq<T>, v: T, cap: nat)
    requires
        s.len() <= cap,
        s.no_duplicates(),
        s.contains(v),
    ensures
        put_evicted(s, v, cap) is None,
        put_result(s, v, cap).len() == s.len(),
{
    lemma_move_to_front_no_duplicates(s, v);
}

/// Putting a new value into a full list evicts the least recently used value.
pub proof fn lemma_put_full_evicts_last<T>(s: Seq<T>, v: T, cap: nat)
    requires
        s.len() == cap,
        cap >= 1,
        s.no_duplicates(),
        !s.contains(v),
    ensures
        put_evicted(s, v, cap) == Some(s.last()),
        put_result(s, v, cap) =~= seq![v] + s.drop_last(),
{
    lemma_move_to_front_no_duplicates(s, v);
    lemma_first_index_of(s, v);
    assert(move_to_front(s, v) =~= seq![v] + s);
}

/// Looking up a present value only reorders the values: the same values stay,
/// with the looked-up one first.
pub proof fn lemma_get_keeps_values<T>(s: Seq<T>, v: T)
    requires
        s.no_duplicates(),
        s.contains(v),
    ensures
        move_to_front(s, v).len() == s.len(),
        move_to_front(s, v).to_set() =~= s.to_set(),
        move_to_front(s, v)[0] == v,
{
    lemma_move_to_front_no_duplicates(s, v);
    lemma_first_index_of(s, v);
    let i = first_index_of(s, v);
    let m = move_to_front(s, v);
    assert forall|x: T| m.to_set().contains(x) implies s.to_set().contains(x) by {
        let k = choose|k: int| 0 <= k < m.len() && m[k] == x;
        if k == 0 {
            assert(s[i] == x);
        } else if k - 1 < i {
            assert(s[k - 1] == x);
        } else {
            assert(s[k] == x);
        }
    }
    assert forall|x: T| s.to_set().contains(x) implies m.to_set().contains(x) by {
        let k = choose|k: int| 0 <= k < s.len() && s[k] == x;
        if k == i {
            assert(m[0] == x);
        } else if k < i {
            assert(m[k + 1] == x);
        } else {
            assert(m[k] == x);
        }
    }
}

/// A call on a list: a `put` or a `get` of a value, by its view.
pub enum LruStep<V> {
    Put(V),
    Get(V),
}

/// The values of a list made with capacity `cap` after the calls `steps`,
/// oldest call first, as `put` and `get` state them.
pub open spec fn after_steps<V>(steps: Seq<LruStep<V>>, cap: nat) -> Seq<V>
    decreases steps.len(),
{
    if steps.len() == 0 {
        Seq::empty()
    } else {
        let s = after_steps(steps.drop_last(), cap);
        match steps.last() {
            LruStep::Put(v) => put_result(s, v, cap),
            LruStep::Get(v) => if s.contains(v) {
                move_to_front(s, v)
            } else {
                s
            },
        }
    }
}

/// The values that the calls used, oldest first: every put value, and every
/// value that a get found.
pub open spec fn used_values<V>(steps: Seq<LruStep<V>>, cap: nat) -> Seq<V>
    decreases steps.len(),
{
    if steps.len() == 0 {
        Seq::empty()
    } else {
        let h = used_values(steps.drop_last(), cap);
        match steps.last() {
            LruStep::Put(v) => h.push(v),
            LruStep::Get(v) => if after_steps(steps.drop_last(), cap).contains(v) {
                h.push(v)
            } else {
                h
            },
        }
    }
}

/// The distinct values of `h` (oldest first), the most recently used first.
pub open spec fn by_recency<V>(h: Seq<V>) -> Seq<V>
    decreases h.len(),
{
    if h.len() == 0 {
        Seq::empty()
    } else {
        move_to_front(by_recency(h.drop_last()), h.last())
    }
}

/// The first `n` values of `s`, or all of them when there are fewer.
pub open spec fn first_n<V>(s: Seq<V>, n: nat) -> Seq<V> {
    if n <= s.len() {
        s.take(n as int)
    } else {
        s
    }
}

/// Putting a value into the first `cap` values of a list gives the first
/// `cap` values of the list with the value moved to its front.
proof fn lemma_put_into_first_n<V>(d: Seq<V>, v: V, cap: nat)
    ensures
        put_result(first_n(d, cap), v, cap) =~= first_n(move_to_front(d, v), cap),
{
    let t = first_n(d, cap);
    lemma_first_index_of(d, v);
    lemma_first_index_of(t, v);
    let i = first_index_of(d, v);
    let it = first_index_of(t, v);
    assert(forall|j: int| 0 <= j < t.len() ==> t[j] == d[j]);
    if i < t.len() {
        assert(it == i) by {
            if it < i {
                assert(t[it] == d[it]);
            }
            if it > i {
                assert(t[i] == d[i]);
            }
        }
        let l = put_result(t, v, cap);
        let r = first_n(move_to_front(d, v), cap);
        assert(l.len() == r.len());
        assert forall|k: int| 0 <= k < l.len() implies l[k] == r[k] by {
            if k > 0 {
                if k - 1 < i {
                    assert(l[k] == t[k - 1]);
                    assert(r[k] == d[k - 1]);
                } else {
                    assert(l[k] == t[k]);
                    assert(r[k] == d[k]);
                }
            }
        }
    } else {
        assert(it == t.len()) by {
            if it < t.len() {
                assert(t[it] == d[it]);
            }
        }
        let l = put_result(t, v, cap);
        let r = first_n(move_to_front(d, v), cap);
        assert(l.len() == r.len());
        assert forall|k: int| 0 <= k < l.len() implies l[k] == r[k] by {
            if k > 0 {
                assert(l[k] == t[k - 1]);
                assert(k - 1 < i);
                assert(r[k] == d[k - 1]);
            }
        }
    }
}

/// Whatever `put` and `get` calls are made on a new list with capacity
/// `cap`, it holds the `cap` most recently used values, most recent first:
/// each value once, in the order in which the calls last used them.
pub proof fn lemma_lru_holds_most_recent<V>(steps: Seq<LruStep<V>>, cap: nat)
    ensures
        after_steps(steps, cap) == first_n(by_recency(used_values(steps, cap)), cap),
    decreases steps.len(),
{
    if steps.len() > 0 {
        let p = steps.drop_last();
        lemma_lru_holds_most_recent(p, cap);
        let d = by_recency(used_values(p, cap));
        let s = after_steps(p, cap);
        match steps.last() {
            LruStep::Put(v) => {
                lemma_put_into_first_n(d, v, cap);
                assert(used_values(steps, cap).drop_last() =~= used_values(p, cap));
            },
            LruStep::Get(v) => {
                if s.contains(v) {
                    lemma_put_into_first_n(d, v, cap);
                    lemma_first_index_of(s, v);
                    assert(s.len() <= cap);
                    assert(move_to_front(s, v).len() == s.len());
                    assert(used_values(steps, cap).drop_last() =~= used_values(p, cap));
                }
            },
        }
    }
}

/// The values by recency are distinct, and are the values used.
pub proof fn lemma_by_recency_distinct<V>(h: Seq<V>)
    ensures
        by_recency(h).no_duplicates(),
        forall|x: V| #[trigger] by_recency(h).contains(x) <==> h.contains(x),
    decreases h.len(),
{
    if h.len() > 0 {
        let d = by_recency(h.drop_last());
        let v = h.last();
        lemma_by_recency_distinct(h.drop_last());
        lemma_move_to_front_no_duplicates(d, v);
        lemma_first_index_of(d, v);
        let i = first_index_of(d, v);
        let m = move_to_front(d, v);
        assert forall|x: V| m.contains(x) <==> h.contains(x) by {
            if m.contains(x) {
                let k = choose|k: int| 0 <= k < m.len() && m[k] == x;
                if k == 0 {
                    assert(h[h.len() - 1] == x);
                } else {
                    let j = if i < d.len() && k - 1 >= i { k } else { k - 1 };
                    assert(d[j] == x);
                    assert(d.contains(x));
                    assert(h.drop_last().contains(x));
                    let q = choose|q: int| 0 <= q < h.drop_last().len() && h.drop_last()[q] == x;
                    assert(h[q] == x);
                }
            }
            if h.contains(x) {
                let q = choose|q: int| 0 <= q < h.len() && h[q] == x;
                if q == h.len() - 1 {
                    assert(m[0] == x);
                } else {
                    assert(h.drop_last()[q] == x);
                    assert(d.contains(x));
                    let j = choose|j: int| 0 <= j < d.len() && d[j] == x;
                    if x == v {
                        assert(m[0] == x);
                    } else if i < d.len() {
                        assert(j != i);
                        if j < i {
                            assert(m[j + 1] == x);
                        } else {
                            assert(m[j] == x);
                        }
                    } else {
                        assert(m[j + 1] == x);
                    }
                }
            }
        }
    }
}

/// Where `x` was last used in `h` (oldest first), or -1 when it never was.
pub open spec fn last_use<V>(h: Seq<V>, x: V) -> int
    decreases h.len(),
{
    if h.len() == 0 {
        -1
    } else if h.last() == x {
        h.len() - 1
    } else {
        last_use(h.drop_last(), x)
    }
}

proof fn lemma_last_use_below<V>(h: Seq<V>, x: V)
    ensures
        -1 <= last_use(h, x) < h.len(),
    decreases h.len(),
{
    if h.len() > 0 {
        lemma_last_use_below(h.drop_last(), x);
    }
}

/// By recency, a value comes before another exactly when it was used later.
pub proof fn lemma_by_recency_order<V>(h: Seq<V>)
    ensures
        forall|i: int, j: int|
            0 <= i < j < by_recency(h).len() ==> last_use(h, #[trigger] by_recency(h)[i]) > last_use(
                h,
                #[trigger] by_recency(h)[j],
            ),
    decreases h.len(),
{
    if h.len() > 0 {
        let p = h.drop_last();
        let d = by_recency(p);
        let v = h.last();
        lemma_by_recency_order(p);
        lemma_by_recency_distinct(p);
        lemma_first_index_of(d, v);
        let fi = first_index_of(d, v);
        let m = by_recency(h);
        assert(m == move_to_front(d, v));
        // where each value of the new order stood before
        assert forall|k: int| 1 <= k < m.len() implies (#[trigger] m[k]) != v && m[k] == d[
            if fi < d.len() && k - 1 >= fi {
                k
            } else {
                k - 1
            }
        ] by {
            let q = if fi < d.len() && k - 1 >= fi { k } else { k - 1 };
            assert(m[k] == d[q]);
            if fi < d.len() {
                assert(q != fi);
                assert(d[q] != d[fi]);
            } else {
                assert(d[q] != v);
            }
        }
        assert forall|i: int, j: int| 0 <= i < j < m.len() implies last_use(h, #[trigger] m[i]) > last_use(
            h,
            #[trigger] m[j],
        ) by {
            lemma_last_use_below(p, m[j]);
            if i == 0 {
                assert(m[0] == v);
                assert(m[j] != v);
                assert(last_use(h, m[j]) == last_use(p, m[j]));
            } else {
                let qi = if fi < d.len() && i - 1 >= fi { i } else { i - 1 };
                let qj = if fi < d.len() && j - 1 >= fi { j } else { j - 1 };
                assert(m[i] == d[qi] && m[j] == d[qj]);
                assert(qi < qj);
                assert(last_use(p, d[qi]) > last_use(p, d[qj]));
                assert(last_use(h, m[i]) == last_use(p, m[i]));
                assert(last_use(h, m[j]) == last_use(p, m[j]));
            }
        }
    }
}

} // verus!
