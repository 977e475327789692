use vstd::prelude::*;

use vstd::std_specs::ops::{AddSpec, MulSpec};

use crate::Error;

verus! {

/// A key of a point series: a copyable value that is ordered and found again by
/// an unsigned integer that identifies it.
pub trait Key: Copy + Sized {
    /// The integer by which the key is ordered.
    spec fn key_view(&self) -> u64;

    /// The integer by which the key is ordered.
    fn key(&self) -> (k: u64)
        ensures
            k == self.key_view(),
    ;

    /// Two keys with the same integer are the same key.
    proof fn lemma_key_injective(a: Self, b: Self)
        ensures
            a.key_view() == b.key_view() ==> a == b,
    ;
}

impl Key for u32 {
    open spec fn key_view(&self) -> u64 {
        *self as u64
    }

    fn key(&self) -> (k: u64) {
        *self as u64
    }

    proof fn lemma_key_injective(a: Self, b: Self) {
    }
}

/// The integers of a sequence of keys.
pub open spec fn keys_of<K: Key>(s: Seq<K>) -> Seq<u64> {
    s.map_values(|k: K| k.key_view())
}

/// The keys strictly increase along the sequence.
pub open spec fn strictly_increasing(ks: Seq<u64>) -> bool {
    forall|i: int, j: int| 0 <= i < j < ks.len() ==> ks[i] < ks[j]
}

/// The keys never decrease along the sequence.
pub open spec fn non_decreasing(ks: Seq<u64>) -> bool {
    forall|i: int, j: int| 0 <= i <= j < ks.len() ==> ks[i] <= ks[j]
}

/// The first index at or after `from` whose key is `v`, or `-1` when there is none.
pub open spec fn position_from(ks: Seq<u64>, v: u64, from: int) -> int
    decreases ks.len() - from,
{
    if from < 0 || from >= ks.len() {
        -1
    } else if ks[from] == v {
        from
    } else {
        position_from(ks, v, from + 1)
    }
}

/// The index reached by halving the bracket `[low, high]` until its ends are
/// neighbours, moving `low` up while the middle key is below `v`.
pub open spec fn bisect(ks: Seq<u64>, v: u64, low: int, high: int) -> int
    decreases high - low,
{
    if low + 1 >= high {
        low
    } else {
        let current = (low + high) / 2;
        if ks[current] < v {
            bisect(ks, v, current, high)
        } else {
            bisect(ks, v, low, current)
        }
    }
}

/// Where the key `v` stands among the keys `ks` (which must not be empty).
pub open spec fn locate(ks: Seq<u64>, v: u64) -> MyRes<usize> {
    let p = position_from(ks, v, 0);
    if p >= 0 {
        MyRes::Equal(p as usize)
    } else if v < ks[0] {
        MyRes::ToLow(0)
    } else if v >= ks[ks.len() - 1] {
        MyRes::ToHigh((ks.len() - 1) as usize)
    } else {
        let low = bisect(ks, v, 0, ks.len() - 1);
        MyRes::Between(low as usize, (low + 1) as usize)
    }
}

/// What `position_from` finds: the first index at or after `from` that holds `v`.
pub proof fn lemma_position_from(ks: Seq<u64>, v: u64, from: int)
    requires
        0 <= from <= ks.len(),
    ensures
        position_from(ks, v, from) == -1 || from <= position_from(ks, v, from) < ks.len(),
        position_from(ks, v, from) >= 0 ==> ks[position_from(ks, v, from)] == v,
        forall|j: int|
            from <= j < ks.len() && (position_from(ks, v, from) < 0 || j < position_from(
                ks,
                v,
                from,
            )) ==> ks[j] != v,
    decreases ks.len() - from,
{
    if from < ks.len() && ks[from] != v {
        lemma_position_from(ks, v, from + 1);
    }
}

proof fn lemma_bisect(ks: Seq<u64>, v: u64, low: int, high: int)
    requires
        0 <= low < high < ks.len(),
        ks[low] < v,
        v < ks[high],
        forall|j: int| 0 <= j < ks.len() ==> ks[j] != v,
    ensures
        low <= bisect(ks, v, low, high) < high,
        bisect(ks, v, low, high) + 1 <= high,
        ks[bisect(ks, v, low, high)] < v,
        v < ks[bisect(ks, v, low, high) + 1],
    decreases high - low,
{
    if low + 1 < high {
        let current = (low + high) / 2;
        if ks[current] < v {
            lemma_bisect(ks, v, current, high);
        } else {
            lemma_bisect(ks, v, low, current);
        }
    }
}

/// What `locate` says of a key, in plain terms.
pub proof fn lemma_locate(ks: Seq<u64>, v: u64)
    requires
        0 < ks.len() <= usize::MAX,
    ensures
        match locate(ks, v) {
            MyRes::Equal(i) => i < ks.len() && ks[i as int] == v && forall|j: int|
                0 <= j < i ==> ks[j] != v,
            MyRes::ToLow(i) => i == 0 && v < ks[0] && forall|j: int| 0 <= j < ks.len() ==> ks[j] != v,
            MyRes::ToHigh(i) => i == ks.len() - 1 && ks[0] < v && ks[ks.len() - 1] < v && forall|
                j: int,
            |
                0 <= j < ks.len() ==> ks[j] != v,
            MyRes::Between(low, high) => high == low + 1 && high < ks.len() && ks[low as int] < v && v
                < ks[high as int] && forall|j: int| 0 <= j < ks.len() ==> ks[j] != v,
        },
{
    lemma_position_from(ks, v, 0);
    let p = position_from(ks, v, 0);
    if p < 0 && !(v < ks[0]) && !(v >= ks[ks.len() - 1]) {
        lemma_bisect(ks, v, 0, ks.len() - 1);
    }
}

/// Over strictly increasing keys, `locate` brackets `v` exactly: every key left of
/// the answer is below `v` and every key right of it is above `v`.
pub proof fn lemma_locate_sorted(ks: Seq<u64>, v: u64)
    requires
        0 < ks.len() <= usize::MAX,
        strictly_increasing(ks),
    ensures
        match locate(ks, v) {
            MyRes::Equal(i) => forall|j: int|
                0 <= j < ks.len() ==> (j < i ==> ks[j] < v) && (j > i ==> ks[j] > v),
            MyRes::ToLow(_) => forall|j: int| 0 <= j < ks.len() ==> ks[j] > v,
            MyRes::ToHigh(_) => forall|j: int| 0 <= j < ks.len() ==> ks[j] < v,
            MyRes::Between(low, high) => forall|j: int|
                0 <= j < ks.len() ==> (j <= low ==> ks[j] < v) && (j >= high ==> ks[j] > v),
        },
{
    lemma_locate(ks, v);
}

/// Where a key stands among the keys of a series.
#[derive(Debug, Clone, Copy)]
pub enum MyRes<T> {
    /// Strictly between the keys at the two indices, which are neighbours.
    Between(T, T),
    /// Equal to the key at the index.
    Equal(T),
    /// Below every key.
    ToLow(T),
    /// Above every key.
    ToHigh(T),
}

impl<T> MyRes<T> {
    /// Every value held satisfies `p`.
    pub open spec fn all(self, p: spec_fn(T) -> bool) -> bool {
        match self {
            MyRes::Between(a, b) => p(a) && p(b),
            MyRes::Equal(a) => p(a),
            MyRes::ToLow(a) => p(a),
            MyRes::ToHigh(a) => p(a),
        }
    }

    /// `other` has the same variant as `self`, and each value of `other` is
    /// related by `r` to the value of `self` in its place.
    pub open spec fn related<S>(self, other: MyRes<S>, r: spec_fn(T, S) -> bool) -> bool {
        match (self, other) {
            (MyRes::Between(a, b), MyRes::Between(c, d)) => r(a, c) && r(b, d),
            (MyRes::Equal(a), MyRes::Equal(c)) => r(a, c),
            (MyRes::ToLow(a), MyRes::ToLow(c)) => r(a, c),
            (MyRes::ToHigh(a), MyRes::ToHigh(c)) => r(a, c),
            _ => false,
        }
    }

    /// The same variant, with `f` applied to each value held.
    pub fn map<F: Fn(T) -> S, S>(self, f: F) -> (res: MyRes<S>)
        requires
            self.all(|t: T| call_requires(f, (t,))),
        ensures
            self.related(res, |t: T, s: S| call_ensures(f, (t,), s)),
    {
        match self {
            MyRes::Between(a, b) => MyRes::Between(f(a), f(b)),
            MyRes::Equal(a) => MyRes::Equal(f(a)),
            MyRes::ToLow(a) => MyRes::ToLow(f(a)),
            MyRes::ToHigh(a) => MyRes::ToHigh(f(a)),
        }
    }
}

/// Where `val` stands among the keys of `vec`: the first index of an equal key,
/// else below or above every key, else the two neighbouring indices that a
/// halving search from both ends narrows down to.
pub fn floor_and_ciel<K: Key>(vec: &[K], val: K) -> (res: MyRes<usize>)
    requires
        vec@.len() > 0,
    ensures
        res == locate(keys_of(vec@), val.key_view()),
        match res {
            MyRes::Equal(i) => i < vec@.len() && vec@[i as int] == val && forall|j: int|
                0 <= j < i ==> vec@[j].key_view() != val.key_view(),
            MyRes::ToLow(i) => i == 0 && val.key_view() < vec@[0].key_view() && forall|j: int|
                0 <= j < vec@.len() ==> vec@[j].key_view() != val.key_view(),
            MyRes::ToHigh(i) => i == vec@.len() - 1 && vec@[0].key_view() < val.key_view()
                && vec@[vec@.len() - 1].key_view() < val.key_view() && forall|j: int|
                0 <= j < vec@.len() ==> vec@[j].key_view() != val.key_view(),
            MyRes::Between(low, high) => high == low + 1 && high < vec@.len() && vec@[low as int].key_view()
                < val.key_view() && val.key_view() < vec@[high as int].key_view() && forall|j: int|
                0 <= j < vec@.len() ==> vec@[j].key_view() != val.key_view(),
        },
{
    let ghost ks = keys_of(vec@);
    let v = val.key();
    let len = vec.len();
    proof {
        assert(ks.len() == len);
        lemma_locate(ks, v);
        lemma_position_from(ks, v, 0);
    }
    let mut i: usize = 0;
    while i < len
        invariant
            len == vec@.len(),
            ks == keys_of(vec@),
            v == val.key_view(),
            0 <= i <= len,
            position_from(ks, v, 0) == position_from(ks, v, i as int),
            forall|j: int| 0 <= j < i ==> ks[j] != v,
            forall|j: int| 0 <= j < i ==> vec@[j].key_view() != v,
        decreases len - i,
    {
        if vec[i].key() == v {
            proof {
                K::lemma_key_injective(vec@[i as int], val);
            }
            return MyRes::Equal(i);
        }
        i = i + 1;
    }
    if v <= vec[0].key() {
        MyRes::ToLow(0)
    } else if v >= vec[len - 1].key() {
        MyRes::ToHigh(len - 1)
    } else {
        let mut low: usize = 0;
        let mut high: usize = len - 1;
        while !(low + 1 == high || low == high)
            invariant
                len == vec@.len(),
                ks == keys_of(vec@),
                v == val.key_view(),
                0 <= low < high < len,
                bisect(ks, v, 0, len - 1) == bisect(ks, v, low as int, high as int),
            decreases high - low,
        {
            let current = low + (high - low) / 2;
            if vec[current].key() < v {
                low = current;
            } else {
                high = current;
            }
        }
        MyRes::Between(low, high)
    }
}

/// A key and the value stored under it.
#[derive(Debug)]
pub struct Pair<K: Copy, V: Copy>(K, V);

impl<K: Copy, V: Copy> Pair<K, V> {
    /// The key held.
    pub closed spec fn spec_x(&self) -> K {
        self.0
    }

    /// The value held.
    pub closed spec fn spec_y(&self) -> V {
        self.1
    }

    /// The key held.
    pub fn x(&self) -> (res: K)
        ensures
            res == self.spec_x(),
    {
        self.0
    }

    /// The value held.
    pub fn y(&self) -> (res: V)
        ensures
            res == self.spec_y(),
    {
        self.1
    }
}


/// `order` lists, for each place of the sorted sequence, the index in `ks` of the
/// element that goes there: every index once, keys never decreasing, and equal
/// keys kept in their first order.
pub open spec fn is_stable_sort_order(order: Seq<int>, ks: Seq<u64>) -> bool {
    &&& order.len() == ks.len()
    &&& forall|i: int| 0 <= i < order.len() ==> 0 <= #[trigger] order[i] < ks.len()
    &&& forall|i: int, j: int| 0 <= i < j < order.len() ==> order[i] != order[j]
    &&& forall|i: int, j: int| 0 <= i < j < order.len() ==> ks[order[i]] <= ks[order[j]]
    &&& forall|i: int, j: int|
        0 <= i < j < order.len() && ks[order[i]] == ks[order[j]] ==> order[i] < order[j]
}

/// The elements of `s` taken in the places that `order` gives.
pub open spec fn reorder<T>(s: Seq<T>, order: Seq<int>) -> Seq<T> {
    Seq::new(order.len(), |i: int| s[order[i]])
}

#[verifier::external_type_specification]
#[verifier::external_body]
pub struct ExPermutation(permutation::Permutation);

/// The order a permutation of the `permutation` crate applies: the element at
/// place `i` after applying it is the one at place `permutation_order(p)[i]` before.
pub uninterp spec fn permutation_order(p: permutation::Permutation) -> Seq<int>;

/// Calls `permutation::sort_by_key` with the integer of each key. That function
/// sorts the identity permutation with the stable `sort_by_key` of std, so the
/// permutation it returns is the stable sorting order of the keys.
#[verifier::external_body]
fn stable_sort_order<K: Key>(xs: &[K]) -> (p: permutation::Permutation)
    ensures
        is_stable_sort_order(permutation_order(p), keys_of(xs@)),
{
    permutation::sort_by_key(xs, |k: &K| k.key())
}

/// Calls `Permutation::apply_slice_in_place`, which reorders the vector in place as
/// `apply_slice` would (the element at place `i` becomes the one at the place the
/// permutation lists for `i`) and leaves the permutation as it was. It panics when
/// the lengths differ or the length exceeds `isize::MAX`, and it follows the
/// permutation's cycles, so an order that lists a place twice (which the crate's
/// constructors check only in debug builds) is left out.
#[verifier::external_body]
fn apply_order<T>(p: &mut permutation::Permutation, v: &mut Vec<T>)
    requires
        permutation_order(*old(p)).len() == old(v)@.len(),
        old(v)@.len() <= isize::MAX,
        forall|i: int|
            0 <= i < old(v)@.len() ==> 0 <= #[trigger] permutation_order(*old(p))[i] < old(
                v,
            )@.len(),
        forall|i: int, j: int|
            0 <= i < j < old(v)@.len() ==> #[trigger] permutation_order(*old(p))[i]
                != #[trigger] permutation_order(*old(p))[j],
    ensures
        permutation_order(*final(p)) == permutation_order(*old(p)),
        final(v)@ == reorder(old(v)@, permutation_order(*old(p))),
{
    p.apply_slice_in_place(v)
}

/// Points given by key and value, kept in two vectors of the same length.
#[derive(Debug, Clone)]
pub struct XYPairs<K: Key, V: Copy> {
    xs: Vec<K>,
    ys: Vec<V>,
}

impl<K: Key, V: Copy> XYPairs<K, V> {
    /// The keys, in the order held.
    pub closed spec fn xs(&self) -> Seq<K> {
        self.xs@
    }

    /// The values, in the order held.
    pub closed spec fn ys(&self) -> Seq<V> {
        self.ys@
    }

    /// The integers of the keys, in the order held.
    pub open spec fn key_seq(&self) -> Seq<u64> {
        keys_of(self.xs())
    }

    /// As many keys as values.
    pub open spec fn wf(&self) -> bool {
        self.xs().len() == self.ys().len()
    }

    /// No points.
    pub fn new() -> (res: Self)
        ensures
            res.wf(),
            res.xs() == Seq::<K>::empty(),
            res.ys() == Seq::<V>::empty(),
    {
        Self { xs: Vec::new(), ys: Vec::new() }
    }

    /// The points of `xs` and `ys`, reordered together by a stable sort of the keys.
    pub fn from_vecs(xs: Vec<K>, ys: Vec<V>) -> (res: Self)
        requires
            xs@.len() == ys@.len(),
            xs@.len() <= isize::MAX,
        ensures
            res.wf(),
            exists|order: Seq<int>|
                is_stable_sort_order(order, keys_of(xs@)) && res.xs() == reorder(xs@, order)
                    && res.ys() == reorder(ys@, order),
            non_decreasing(res.key_seq()),
    {
        let mut xs = xs;
        let mut ys = ys;
        let ghost xs0 = xs@;
        let ghost ys0 = ys@;
        let mut permutation = stable_sort_order(xs.as_slice());
        let ghost order = permutation_order(permutation);
        apply_order(&mut permutation, &mut xs);
        apply_order(&mut permutation, &mut ys);
        let res = Self { xs, ys };
        proof {
            assert(is_stable_sort_order(order, keys_of(xs0)));
            assert forall|i: int, j: int| 0 <= i <= j < res.key_seq().len() implies res.key_seq()[i]
                <= res.key_seq()[j] by {
                assert(res.key_seq()[i] == keys_of(xs0)[order[i]]);
                assert(res.key_seq()[j] == keys_of(xs0)[order[j]]);
            }
        }
        res
    }

    /// A single point.
    pub fn from_point(x: K, y: V) -> (res: Self)
        ensures
            res.wf(),
            res.xs() == seq![x],
            res.ys() == seq![y],
    {
        Self { xs: vec![x], ys: vec![y] }
    }
}


impl<K: Key, V: Copy> XYPairs<K, V> {
    /// Puts the point in: where its key is already held its value is replaced;
    /// below or above every key it goes first or last; between two neighbouring
    /// keys the key goes in at the lower neighbour's place and the value at the
    /// upper neighbour's place.
    pub fn push_replace(&mut self, x: K, y: V)
        requires
            old(self).wf(),
            old(self).xs().len() > 0,
        ensures
            final(self).wf(),
            (final(self).xs(), final(self).ys()) == placed(
                old(self).xs(),
                old(self).ys(),
                locate(old(self).key_seq(), x.key_view()),
                x,
                y,
            ),
    {
        match floor_and_ciel(self.xs.as_slice(), x) {
            MyRes::Between(low, high) => {
                self.xs.insert(low, x);
                self.ys.insert(high, y);
            },
            MyRes::Equal(i) => {
                self.ys.set(i, y);
            },
            MyRes::ToLow(_) => {
                self.xs.insert(0, x);
                self.ys.insert(0, y);
            },
            MyRes::ToHigh(_) => {
                self.xs.push(x);
                self.ys.push(y);
            },
        }
    }

    /// Puts a point with a new key in, as `push_replace` does; a key that is
    /// already held is refused with `Error::Overwrite` and nothing changes.
    pub fn push(&mut self, x: K, y: V) -> (res: Result<(), Error>)
        requires
            old(self).wf(),
        ensures
            final(self).wf(),
            match pushed(old(self).xs(), old(self).ys(), x, y) {
                Some((nxs, nys)) => res is Ok && final(self).xs() == nxs && final(self).ys() == nys,
                None => res == Err::<(), Error>(Error::Overwrite) && final(self).xs() == old(self).xs()
                    && final(self).ys() == old(self).ys(),
            },
            old(self).xs().len() == 0 ==> res is Ok && final(self).xs() == seq![x]
                && final(self).ys() == seq![y],
            old(self).xs().len() > 0 && locate(old(self).key_seq(), x.key_view()) is Equal
                ==> res == Err::<(), Error>(Error::Overwrite) && final(self).xs() == old(self).xs()
                && final(self).ys() == old(self).ys(),
            old(self).xs().len() > 0 && !(locate(old(self).key_seq(), x.key_view()) is Equal)
                ==> res is Ok && (final(self).xs(), final(self).ys()) == placed(
                old(self).xs(),
                old(self).ys(),
                locate(old(self).key_seq(), x.key_view()),
                x,
                y,
            ),
    {
        if self.is_empty() {
            self.xs = vec![x];
            self.ys = vec![y];
            return Ok(());
        }
        match floor_and_ciel(self.xs.as_slice(), x) {
            MyRes::Equal(_) => {
                return Err(Error::Overwrite);
            },
            MyRes::Between(low, high) => {
                self.xs.insert(low, x);
                self.ys.insert(high, y);
            },
            MyRes::ToLow(_) => {
                self.xs.insert(0, x);
                self.ys.insert(0, y);
            },
            MyRes::ToHigh(_) => {
                self.xs.push(x);
                self.ys.push(y);
            },
        }
        Ok(())
    }

    /// The leading points up to the key: through the point with that key when it is
    /// held, up to the lower neighbour when the key falls between two, none when it
    /// is below every key and all when it is above every key.
    pub fn upto(&self, x: K) -> (res: (&[K], &[V]))
        requires
            self.wf(),
            self.xs().len() > 0,
        ensures
            res.0@ == self.xs().take(upto_len(self.key_seq(), x.key_view())),
            res.1@ == self.ys().take(upto_len(self.key_seq(), x.key_view())),
    {
        let xs = self.xs.as_slice();
        let ys = self.ys.as_slice();
        match floor_and_ciel(xs, x) {
            MyRes::Between(_, high) => (&xs[0..high], &ys[0..high]),
            MyRes::Equal(idx) => {
                let n = xs.len();
                assert(idx < n);
                (&xs[0..idx + 1], &ys[0..idx + 1])
            },
            MyRes::ToLow(_) => (&xs[0..0], &ys[0..0]),
            MyRes::ToHigh(_) => (xs, ys),
        }
    }

    /// The keys and the values.
    pub fn slices(&self) -> (res: (&[K], &[V]))
        ensures
            res.0@ == self.xs(),
            res.1@ == self.ys(),
    {
        (self.xs.as_slice(), self.ys.as_slice())
    }

    /// The point or points where the key stands, as `floor_and_ciel` places it.
    pub fn get_pairs(&self, x: K) -> (res: MyRes<Pair<K, V>>)
        requires
            self.wf(),
            self.xs().len() > 0,
        ensures
            locate(self.key_seq(), x.key_view()).related(
                res,
                |i: usize, p: Pair<K, V>|
                    i < self.xs().len() && p.spec_x() == self.xs()[i as int] && p.spec_y()
                        == self.ys()[i as int],
            ),
    {
        let xs = self.xs.as_slice();
        let ys = self.ys.as_slice();
        match floor_and_ciel(xs, x) {
            MyRes::Between(low, high) => MyRes::Between(Pair(xs[low], ys[low]), Pair(xs[high], ys[high])),
            MyRes::Equal(i) => MyRes::Equal(Pair(xs[i], ys[i])),
            MyRes::ToLow(i) => MyRes::ToLow(Pair(xs[i], ys[i])),
            MyRes::ToHigh(i) => MyRes::ToHigh(Pair(xs[i], ys[i])),
        }
    }

    /// The key is already held, so that `push` would refuse it.
    pub fn has_key(&self, x: K) -> (res: bool)
        requires
            self.wf(),
        ensures
            res == (self.xs().len() > 0 && locate(self.key_seq(), x.key_view()) is Equal),
    {
        if self.xs.is_empty() {
            return false;
        }
        match floor_and_ciel(self.xs.as_slice(), x) {
            MyRes::Equal(_) => true,
            _ => false,
        }
    }

    /// A copy holding the same points.
    pub fn duplicate(&self) -> (res: Self)
        ensures
            res.xs() == self.xs(),
            res.ys() == self.ys(),
    {
        Self {
            xs: vstd::slice::slice_to_vec(self.xs.as_slice()),
            ys: vstd::slice::slice_to_vec(self.ys.as_slice()),
        }
    }

    /// No points are held.
    pub fn is_empty(&self) -> (res: bool)
        ensures
            res == (self.xs().len() == 0),
    {
        self.xs.is_empty()
    }

    /// The same points with `f` applied to each key.
    pub fn map_keys<T: Key, F: Fn(K) -> T>(self, f: F) -> (res: XYPairs<T, V>)
        requires
            self.wf(),
            forall|i: int| 0 <= i < self.xs().len() ==> call_requires(f, (self.xs()[i],)),
        ensures
            res.wf(),
            res.xs().len() == self.xs().len(),
            forall|i: int|
                0 <= i < self.xs().len() ==> call_ensures(f, (self.xs()[i],), #[trigger] res.xs()[i]),
            res.ys() == self.ys(),
    {
        let XYPairs { xs, ys } = self;
        let mut out: Vec<T> = Vec::new();
        let mut i: usize = 0;
        while i < xs.len()
            invariant
                0 <= i <= xs@.len(),
                out@.len() == i,
                forall|j: int| 0 <= j < xs@.len() ==> call_requires(f, (xs@[j],)),
                forall|j: int| 0 <= j < i ==> call_ensures(f, (xs@[j],), #[trigger] out@[j]),
            decreases xs@.len() - i,
        {
            out.push(f(xs[i]));
            i = i + 1;
        }
        XYPairs { xs: out, ys }
    }

    /// The same points with `f` applied to each value.
    pub fn map_values<T: Copy, F: Fn(V) -> T>(self, f: F) -> (res: XYPairs<K, T>)
        requires
            self.wf(),
            forall|i: int| 0 <= i < self.ys().len() ==> call_requires(f, (self.ys()[i],)),
        ensures
            res.wf(),
            res.xs() == self.xs(),
            res.ys().len() == self.ys().len(),
            forall|i: int|
                0 <= i < self.ys().len() ==> call_ensures(f, (self.ys()[i],), #[trigger] res.ys()[i]),
    {
        let XYPairs { xs, ys } = self;
        let mut out: Vec<T> = Vec::new();
        let mut i: usize = 0;
        while i < ys.len()
            invariant
                0 <= i <= ys@.len(),
                out@.len() == i,
                forall|j: int| 0 <= j < ys@.len() ==> call_requires(f, (ys@[j],)),
                forall|j: int| 0 <= j < i ==> call_ensures(f, (ys@[j],), #[trigger] out@[j]),
            decreases ys@.len() - i,
        {
            out.push(f(ys[i]));
            i = i + 1;
        }
        XYPairs { xs, ys: out }
    }
}

impl<K: Key, V: Copy> Default for XYPairs<K, V> {
    fn default() -> (res: Self)
        ensures
            res.wf(),
            res.xs() == Seq::<K>::empty(),
            res.ys() == Seq::<V>::empty(),
    {
        Self::new()
    }
}

/// The keys and values after putting the point `(x, y)` in at the place `at`:
/// replacing the value at an equal key, first, last, or with the key at the lower
/// and the value at the upper of two neighbouring places.
pub open spec fn placed<K, V>(xs: Seq<K>, ys: Seq<V>, at: MyRes<usize>, x: K, y: V) -> (Seq<K>, Seq<V>) {
    match at {
        MyRes::Equal(i) => (xs, ys.update(i as int, y)),
        MyRes::ToLow(_) => (xs.insert(0, x), ys.insert(0, y)),
        MyRes::ToHigh(_) => (xs.push(x), ys.push(y)),
        MyRes::Between(low, high) => (xs.insert(low as int, x), ys.insert(high as int, y)),
    }
}

/// The keys and values after `push` of `(x, y)`, or `None` when the key is
/// already held: a first point when there is none, else `placed` at where the
/// key stands.
pub open spec fn pushed<K: Key, V>(xs: Seq<K>, ys: Seq<V>, x: K, y: V) -> Option<(Seq<K>, Seq<V>)> {
    if xs.len() == 0 {
        Some((seq![x], seq![y]))
    } else if locate(keys_of(xs), x.key_view()) is Equal {
        None
    } else {
        Some(placed(xs, ys, locate(keys_of(xs), x.key_view()), x, y))
    }
}

/// How many leading points `upto` keeps for the key `v`.
pub open spec fn upto_len(ks: Seq<u64>, v: u64) -> int {
    match locate(ks, v) {
        MyRes::Between(_, high) => high as int,
        MyRes::Equal(idx) => idx + 1,
        MyRes::ToLow(_) => 0,
        MyRes::ToHigh(_) => ks.len() as int,
    }
}


/// Putting a point in keeps the keys strictly increasing, except when the key
/// falls strictly between two held keys: there the key is put in below its lower
/// neighbour, and the order is lost.
pub proof fn lemma_placed_keeps_order<K: Key, V>(xs: Seq<K>, ys: Seq<V>, x: K, y: V)
    requires
        0 < xs.len() <= usize::MAX,
        xs.len() == ys.len(),
        strictly_increasing(keys_of(xs)),
        !(locate(keys_of(xs), x.key_view()) is Between),
    ensures
        strictly_increasing(keys_of(placed(xs, ys, locate(keys_of(xs), x.key_view()), x, y).0)),
        placed(xs, ys, locate(keys_of(xs), x.key_view()), x, y).0.len() == placed(
            xs,
            ys,
            locate(keys_of(xs), x.key_view()),
            x,
            y,
        ).1.len(),
{
    let ks = keys_of(xs);
    lemma_locate(ks, x.key_view());
    let at = locate(ks, x.key_view());
    let nxs = placed(xs, ys, at, x, y).0;
    let nks = keys_of(nxs);
    match at {
        MyRes::ToLow(_) => {
            assert forall|i: int, j: int| 0 <= i < j < nks.len() implies nks[i] < nks[j] by {
                if i == 0 {
                    assert(nks[j] == ks[j - 1]);
                    assert(ks[0] <= ks[j - 1]);
                } else {
                    assert(nks[i] == ks[i - 1]);
                    assert(nks[j] == ks[j - 1]);
                }
            }
        },
        MyRes::ToHigh(_) => {
            assert forall|i: int, j: int| 0 <= i < j < nks.len() implies nks[i] < nks[j] by {
                if j == nks.len() - 1 {
                    assert(nks[i] == ks[i]);
                    assert(ks[i] <= ks[ks.len() - 1]);
                } else {
                    assert(nks[i] == ks[i]);
                    assert(nks[j] == ks[j]);
                }
            }
        },
        MyRes::Equal(_) => {
            assert(nks == ks);
        },
        MyRes::Between(_, _) => {},
    }
}

/// Reading after writing: once a point is put in (other than strictly between two
/// held keys), its key is found and the value stored under it is the one put in.
pub proof fn lemma_placed_then_found<K: Key, V>(xs: Seq<K>, ys: Seq<V>, x: K, y: V)
    requires
        0 < xs.len() < usize::MAX,
        xs.len() == ys.len(),
        !(locate(keys_of(xs), x.key_view()) is Between),
    ensures
        ({
            let (nxs, nys) = placed(xs, ys, locate(keys_of(xs), x.key_view()), x, y);
            let found = locate(keys_of(nxs), x.key_view());
            &&& found is Equal
            &&& nxs[found->Equal_0 as int] == x
            &&& nys[found->Equal_0 as int] == y
        }),
{
    let ks = keys_of(xs);
    lemma_locate(ks, x.key_view());
    let at = locate(ks, x.key_view());
    let (nxs, nys) = placed(xs, ys, at, x, y);
    let nks = keys_of(nxs);
    lemma_locate(nks, x.key_view());
    let found = locate(nks, x.key_view());
    match at {
        MyRes::Equal(i) => {
            assert(nks == ks);
        },
        MyRes::ToLow(_) => {
            assert(nks[0] == x.key_view());
        },
        MyRes::ToHigh(_) => {
            let last = nks.len() - 1;
            assert(nks[last] == x.key_view());
            assert forall|j: int| 0 <= j < last implies nks[j] != x.key_view() by {
                assert(nks[j] == ks[j]);
            }
        },
        MyRes::Between(_, _) => {},
    }
    let i = found->Equal_0 as int;
    K::lemma_key_injective(nxs[i], x);
}

/// Over strictly increasing keys, `upto` keeps exactly the points whose key is at
/// most `v`.
pub proof fn lemma_upto_sorted(ks: Seq<u64>, v: u64)
    requires
        0 < ks.len() <= usize::MAX,
        strictly_increasing(ks),
    ensures
        0 <= upto_len(ks, v) <= ks.len(),
        forall|j: int| 0 <= j < upto_len(ks, v) ==> ks[j] <= v,
        forall|j: int| upto_len(ks, v) <= j < ks.len() ==> ks[j] > v,
{
    lemma_locate(ks, v);
    lemma_locate_sorted(ks, v);
}


/// Adds each element of `v2` to the element of `v1` in the same place.
pub fn add_elementwise<T: Copy + core::ops::Add<Output = T>>(v1: &mut Vec<T>, v2: &[T])
    requires
        old(v1)@.len() == v2@.len(),
        forall|i: int| 0 <= i < v2@.len() ==> old(v1)@[i].add_req(v2@[i]),
    ensures
        final(v1)@.len() == old(v1)@.len(),
        T::obeys_add_spec() ==> forall|i: int|
            0 <= i < v2@.len() ==> final(v1)@[i] == old(v1)@[i].add_spec(v2@[i]),
{
    let n = v2.len();
    let mut i: usize = 0;
    while i < n
        invariant
            n == v2@.len(),
            v1@.len() == n,
            0 <= i <= n,
            forall|j: int| i <= j < n ==> v1@[j] == old(v1)@[j],
            forall|j: int| 0 <= j < n ==> old(v1)@[j].add_req(v2@[j]),
            T::obeys_add_spec() ==> forall|j: int|
                0 <= j < i ==> v1@[j] == old(v1)@[j].add_spec(v2@[j]),
        decreases n - i,
    {
        let sum = v1[i] + v2[i];
        v1.set(i, sum);
        i = i + 1;
    }
}

/// Multiplies each element of `v1` by the element of `v2` in the same place.
pub fn mul_elementwise<T: Copy + core::ops::Mul<Output = T>>(v1: &mut Vec<T>, v2: &[T])
    requires
        old(v1)@.len() == v2@.len(),
        forall|i: int| 0 <= i < v2@.len() ==> old(v1)@[i].mul_req(v2@[i]),
    ensures
        final(v1)@.len() == old(v1)@.len(),
        T::obeys_mul_spec() ==> forall|i: int|
            0 <= i < v2@.len() ==> final(v1)@[i] == old(v1)@[i].mul_spec(v2@[i]),
{
    let n = v2.len();
    let mut i: usize = 0;
    while i < n
        invariant
            n == v2@.len(),
            v1@.len() == n,
            0 <= i <= n,
            forall|j: int| i <= j < n ==> v1@[j] == old(v1)@[j],
            forall|j: int| 0 <= j < n ==> old(v1)@[j].mul_req(v2@[j]),
            T::obeys_mul_spec() ==> forall|j: int|
                0 <= j < i ==> v1@[j] == old(v1)@[j].mul_spec(v2@[j]),
        decreases n - i,
    {
        let product = v1[i] * v2[i];
        v1.set(i, product);
        i = i + 1;
    }
}

} // verus!
