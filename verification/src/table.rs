//! A small map from byte-string keys to `i128` amounts, kept as two parallel
//! vectors with no key stored twice.
use vstd::prelude::*;

verus! {

/// Keys that can be told apart and copied in executable code, agreeing with
/// their views.
pub trait TableKey: View + Sized {
    fn same_key(&self, other: &Self) -> (r: bool)
        ensures
            r == (self@ == other@),
    ;

    fn copy_key(&self) -> (r: Self)
        ensures
            r@ == self@,
    ;
}

/// Compares two byte strings.
pub fn bytes_equal(a: &Vec<u8>, b: &Vec<u8>) -> (r: bool)
    ensures
        r == (a@ == b@),
{
    if a.len() != b.len() {
        return false;
    }
    let n = a.len();
    let mut i: usize = 0;
    while i < n
        invariant
            n == a.len(),
            n == b.len(),
            i <= n,
            forall|j: int| 0 <= j < i ==> a@[j] == b@[j],
        decreases n - i,
    {
        if a[i] != b[i] {
            return false;
        }
        i = i + 1;
    }
    assert(a@ =~= b@);
    true
}

/// Copies a byte string.
pub fn copy_bytes(a: &Vec<u8>) -> (r: Vec<u8>)
    ensures
        r@ == a@,
{
    let mut r: Vec<u8> = Vec::new();
    let n = a.len();
    let mut i: usize = 0;
    while i < n
        invariant
            n == a.len(),
            i <= n,
            r@ == a@.take(i as int),
        decreases n - i,
    {
        r.push(a[i]);
        i = i + 1;
        assert(r@ =~= a@.take(i as int));
    }
    assert(a@.take(n as int) =~= a@);
    r
}

impl TableKey for Vec<u8> {
    fn same_key(&self, other: &Self) -> (r: bool) {
        bytes_equal(self, other)
    }

    fn copy_key(&self) -> (r: Self) {
        copy_bytes(self)
    }
}

impl TableKey for (Vec<u8>, Vec<u8>) {
    fn same_key(&self, other: &Self) -> (r: bool) {
        let first = bytes_equal(&self.0, &other.0);
        let second = bytes_equal(&self.1, &other.1);
        first && second
    }

    fn copy_key(&self) -> (r: Self) {
        (copy_bytes(&self.0), copy_bytes(&self.1))
    }
}

/// The sum of a sequence of amounts, as a mathematical integer.
pub open spec fn amounts_sum(s: Seq<i128>) -> int
    decreases s.len(),
{
    if s.len() == 0 {
        0
    } else {
        amounts_sum(s.drop_last()) + s.last()
    }
}

/// Replacing one element changes the sum by the difference.
pub proof fn lemma_amounts_sum_update(s: Seq<i128>, i: int, v: i128)
    requires
        0 <= i < s.len(),
    ensures
        amounts_sum(s.update(i, v)) == amounts_sum(s) - s[i] + v,
    decreases s.len(),
{
    let t = s.update(i, v);
    if i == s.len() - 1 {
        assert(t.drop_last() =~= s.drop_last());
    } else {
        lemma_amounts_sum_update(s.drop_last(), i, v);
        assert(t.drop_last() =~= s.drop_last().update(i, v));
    }
}

/// Appending an element adds it to the sum.
pub proof fn lemma_amounts_sum_push(s: Seq<i128>, v: i128)
    ensures
        amounts_sum(s.push(v)) == amounts_sum(s) + v,
{
    assert(s.push(v).drop_last() =~= s);
}

/// The sum of `f` over a sequence of keys.
pub open spec fn sum_by<A>(ks: Seq<A>, f: spec_fn(A) -> int) -> int
    decreases ks.len(),
{
    if ks.len() == 0 {
        0
    } else {
        sum_by(ks.drop_last(), f) + f(ks.last())
    }
}

/// Summing a function that is zero everywhere gives zero.
pub proof fn lemma_sum_by_zero<A>(ks: Seq<A>, f: spec_fn(A) -> int)
    requires
        forall|x: A| #[trigger] f(x) == 0,
    ensures
        sum_by(ks, f) == 0,
    decreases ks.len(),
{
    if ks.len() > 0 {
        lemma_sum_by_zero(ks.drop_last(), f);
    }
}

/// Changing a function at one key changes its sum over distinct keys by the
/// change at that key, if the key occurs.
pub proof fn lemma_sum_by_point_change<A>(ks: Seq<A>, f: spec_fn(A) -> int, g: spec_fn(A) -> int, k: A)
    requires
        ks.no_duplicates(),
        forall|x: A| x != k ==> #[trigger] f(x) == g(x),
    ensures
        sum_by(ks, f) == sum_by(ks, g) + (if ks.contains(k) {
            f(k) - g(k)
        } else {
            0
        }),
    decreases ks.len(),
{
    if ks.len() > 0 {
        let p = ks.drop_last();
        assert forall|a: int, b: int| 0 <= a < p.len() && 0 <= b < p.len() && a != b implies p[a]
            != p[b] by {
            assert(p[a] == ks[a] && p[b] == ks[b]);
        }
        lemma_sum_by_point_change(p, f, g, k);
        if ks.last() == k {
            assert(!p.contains(k)) by {
                if p.contains(k) {
                    let j = choose|j: int| 0 <= j < p.len() && p[j] == k;
                    assert(ks[j] == ks[ks.len() - 1]);
                }
            }
            assert(ks.contains(k)) by {
                assert(ks[ks.len() - 1] == k);
            }
        } else {
            assert(ks.contains(k) == p.contains(k)) by {
                if ks.contains(k) {
                    let j = choose|j: int| 0 <= j < ks.len() && ks[j] == k;
                    assert(j != ks.len() - 1);
                    assert(p[j] == k);
                }
                if p.contains(k) {
                    let j = choose|j: int| 0 <= j < p.len() && p[j] == k;
                    assert(ks[j] == k);
                }
            }
        }
    }
}

/// Summing a sum of two functions is summing each.
pub proof fn lemma_sum_by_plus<A>(
    ks: Seq<A>,
    f: spec_fn(A) -> int,
    g: spec_fn(A) -> int,
    h: spec_fn(A) -> int,
)
    requires
        forall|x: A| #[trigger] h(x) == f(x) + g(x),
    ensures
        sum_by(ks, h) == sum_by(ks, f) + sum_by(ks, g),
    decreases ks.len(),
{
    if ks.len() > 0 {
        lemma_sum_by_plus(ks.drop_last(), f, g, h);
    }
}

/// Summing, over distinct keys, a function that is `c` at one key that
/// occurs and zero elsewhere gives `c`.
pub proof fn lemma_sum_by_single<A>(ks: Seq<A>, f: spec_fn(A) -> int, a: A, c: int)
    requires
        ks.no_duplicates(),
        ks.contains(a),
        forall|x: A| #[trigger] f(x) == if x == a { c } else { 0 },
    ensures
        sum_by(ks, f) == c,
{
    let z = |x: A| 0int;
    lemma_sum_by_zero(ks, z);
    lemma_sum_by_point_change(ks, f, z, a);
}

/// A sequence of amounts sums to the sum of `f` over keys when each amount
/// is `f` of the key at the same position.
pub proof fn lemma_amounts_sum_by_keys<A>(vs: Seq<i128>, ks: Seq<A>, f: spec_fn(A) -> int)
    requires
        vs.len() == ks.len(),
        forall|i: int| 0 <= i < ks.len() ==> vs[i] == #[trigger] f(ks[i]),
    ensures
        amounts_sum(vs) == sum_by(ks, f),
    decreases ks.len(),
{
    if ks.len() > 0 {
        let ks1 = ks.drop_last();
        let vs1 = vs.drop_last();
        assert forall|i: int| 0 <= i < ks1.len() implies vs1[i] == #[trigger] f(ks1[i]) by {
            assert(ks1[i] == ks[i]);
        }
        lemma_amounts_sum_by_keys(vs1, ks1, f);
        assert(vs[vs.len() - 1] == f(ks[ks.len() - 1]));
    }
}

/// The amount stored for a key, given the stored keys and amounts.
pub open spec fn lookup<V>(kv: Seq<V>, vs: Seq<i128>) -> spec_fn(V) -> int {
    |k: V| if kv.contains(k) {
        vs[kv.index_of(k)] as int
    } else {
        0
    }
}

/// Stored amounts sum to the amounts looked up over any distinct keys that
/// include every stored key.
proof fn lemma_entries_sum<V>(kv: Seq<V>, vs: Seq<i128>, ks: Seq<V>)
    requires
        kv.len() == vs.len(),
        kv.no_duplicates(),
        ks.no_duplicates(),
        forall|i: int| 0 <= i < kv.len() ==> ks.contains(#[trigger] kv[i]),
    ensures
        amounts_sum(vs) == sum_by(ks, lookup(kv, vs)),
    decreases kv.len(),
{
    if kv.len() == 0 {
        lemma_sum_by_zero(ks, lookup(kv, vs));
    } else {
        let n = kv.len() - 1;
        let kv1 = kv.drop_last();
        let vs1 = vs.drop_last();
        let k = kv[n];
        assert forall|a: int, b: int| 0 <= a < kv1.len() && 0 <= b < kv1.len() && a != b implies kv1[a]
            != kv1[b] by {
            assert(kv1[a] == kv[a] && kv1[b] == kv[b]);
        }
        assert forall|i: int| 0 <= i < kv1.len() implies ks.contains(#[trigger] kv1[i]) by {
            assert(kv1[i] == kv[i]);
        }
        lemma_entries_sum(kv1, vs1, ks);
        assert(!kv1.contains(k)) by {
            if kv1.contains(k) {
                let j = choose|j: int| 0 <= j < kv1.len() && kv1[j] == k;
                assert(kv[j] == kv[n]);
            }
        }
        assert(kv.contains(k)) by {
            assert(kv[n] == k);
        }
        assert(lookup(kv, vs)(k) == vs[n]) by {
            let j = kv.index_of(k);
            assert(kv[j] == k);
        }
        assert forall|x: V| x != k implies #[trigger] lookup(kv, vs)(x) == lookup(kv1, vs1)(x) by {
            if kv.contains(x) {
                let j = kv.index_of(x);
                assert(kv[j] == x);
                assert(j != n);
                assert(kv1[j] == x);
                assert(kv1.contains(x));
                let j1 = kv1.index_of(x);
                assert(kv1[j1] == x);
                assert(kv[j1] == x);
            } else {
                if kv1.contains(x) {
                    let j1 = kv1.index_of(x);
                    assert(kv[j1] == x);
                }
            }
        }
        lemma_sum_by_point_change(ks, lookup(kv, vs), lookup(kv1, vs1), k);
        assert(ks.contains(kv[n]));
    }
}

/// A table of amounts keyed by `K`; a key missing from the table stands for
/// an amount of zero.
pub struct AmountTable<K> {
    keys: Vec<K>,
    amounts: Vec<i128>,
}

impl<K: TableKey> AmountTable<K> {
    /// The views of the stored keys, in storage order.
    pub closed spec fn key_views(&self) -> Seq<K::V> {
        self.keys@.map_values(|k: K| k@)
    }

    /// Well-formedness: one amount per key and no key stored twice.
    pub closed spec fn wf(&self) -> bool {
        &&& self.keys@.len() == self.amounts@.len()
        &&& self.key_views().no_duplicates()
    }

    /// The amount recorded for `k`, zero where none is.
    pub open spec fn amount_of(&self, k: K::V) -> int {
        if self@.contains_key(k) {
            self@[k] as int
        } else {
            0
        }
    }

    /// The sum of all recorded amounts, each key counted once.
    pub closed spec fn total(&self) -> int {
        amounts_sum(self.amounts@)
    }

    /// The total is the sum of the recorded amounts over any list of distinct
    /// keys that includes every recorded key.
    pub proof fn lemma_total_over_keys(&self, ks: Seq<K::V>)
        requires
            self.wf(),
            ks.no_duplicates(),
            forall|k: K::V| #[trigger] self@.contains_key(k) ==> ks.contains(k),
        ensures
            self.total() == sum_by(ks, |k: K::V| self.amount_of(k)),
    {
        let kv = self.key_views();
        assert forall|i: int| 0 <= i < kv.len() implies ks.contains(#[trigger] kv[i]) by {
            assert(self@.contains_key(kv[i]));
        }
        lemma_entries_sum(kv, self.amounts@, ks);
        assert(lookup(kv, self.amounts@) =~= (|k: K::V| self.amount_of(k)));
    }

    proof fn lemma_index(&self, i: int)
        requires
            self.wf(),
            0 <= i < self.keys@.len(),
        ensures
            self@.contains_key(self.key_views()[i]),
            self@[self.key_views()[i]] == self.amounts@[i],
    {
        let k = self.key_views()[i];
        assert(self.key_views().contains(k));
        let j = self.key_views().index_of(k);
        assert(self.key_views()[j] == k);
    }

    pub fn new() -> (r: Self)
        ensures
            r.wf(),
            r@ == Map::<K::V, i128>::empty(),
            r.total() == 0,
    {
        let r = AmountTable { keys: Vec::new(), amounts: Vec::new() };
        assert(r.key_views() =~= Seq::<K::V>::empty());
        assert(r@ =~= Map::<K::V, i128>::empty());
        r
    }

    /// The position of `k` in storage, if it is stored.
    fn find(&self, k: &K) -> (r: Option<usize>)
        requires
            self.wf(),
        ensures
            match r {
                Some(i) => i < self.keys@.len() && self.key_views()[i as int] == k@,
                None => !self.key_views().contains(k@),
            },
    {
        let n = self.keys.len();
        let mut i: usize = 0;
        while i < n
            invariant
                n == self.keys@.len(),
                i <= n,
                forall|j: int| 0 <= j < i ==> self.key_views()[j] != k@,
            decreases n - i,
        {
            if self.keys[i].same_key(k) {
                return Some(i);
            }
            i = i + 1;
        }
        None
    }

    /// The amount recorded for `k`, or zero.
    pub fn get_or_zero(&self, k: &K) -> (r: i128)
        requires
            self.wf(),
        ensures
            r == self.amount_of(k@),
    {
        match self.find(k) {
            Some(i) => {
                proof {
                    self.lemma_index(i as int);
                }
                self.amounts[i]
            },
            None => {
                assert(!self@.contains_key(k@));
                0
            },
        }
    }

    /// Records `v` as the amount of `k`.
    pub fn set(&mut self, k: &K, v: i128)
        requires
            old(self).wf(),
        ensures
            final(self).wf(),
            final(self)@ == old(self)@.insert(k@, v),
            final(self).total() == old(self).total() - old(self).amount_of(k@) + v,
    {
        match self.find(k) {
            Some(i) => {
                proof {
                    self.lemma_index(i as int);
                    lemma_amounts_sum_update(self.amounts@, i as int, v);
                }
                self.amounts.set(i, v);
                proof {
                    assert(self.key_views() == old(self).key_views());
                    assert forall|kk: K::V| #[trigger] self@.contains_key(kk) implies self@[kk]
                        == old(self)@.insert(k@, v)[kk] by {
                        let j = self.key_views().index_of(kk);
                        if kk != k@ {
                            old(self).lemma_index(j);
                        } else {
                            self.lemma_index(i as int);
                        }
                    }
                    assert(self@ =~= old(self)@.insert(k@, v));
                }
            },
            None => {
                let kc = k.copy_key();
                proof {
                    lemma_amounts_sum_push(self.amounts@, v);
                }
                self.keys.push(kc);
                self.amounts.push(v);
                proof {
                    let ov = old(self).key_views();
                    assert(self.key_views() =~= ov.push(k@));
                    assert forall|a: int, b: int|
                        0 <= a < self.key_views().len() && 0 <= b < self.key_views().len() && a
                            != b implies self.key_views()[a] != self.key_views()[b] by {
                        if a == ov.len() as int {
                            assert(!ov.contains(k@));
                            assert(ov[b] == self.key_views()[b]);
                        } else if b == ov.len() as int {
                            assert(!ov.contains(k@));
                            assert(ov[a] == self.key_views()[a]);
                        }
                    }
                    assert forall|kk: K::V| #[trigger] self@.contains_key(kk) implies self@[kk]
                        == old(self)@.insert(k@, v)[kk] by {
                        let j = self.key_views().index_of(kk);
                        if kk != k@ {
                            old(self).lemma_index(j);
                        } else {
                            self.lemma_index(ov.len() as int);
                        }
                    }
                    assert forall|kk: K::V| #[trigger] old(self)@.insert(k@, v).contains_key(kk)
                        implies self@.contains_key(kk) by {
                        if kk != k@ {
                            let j = ov.index_of(kk);
                            assert(self.key_views()[j] == kk);
                        } else {
                            assert(self.key_views()[ov.len() as int] == kk);
                        }
                    }
                    assert(self@ =~= old(self)@.insert(k@, v));
                }
            },
        }
    }
}

impl<K: TableKey> View for AmountTable<K> {
    type V = Map<K::V, i128>;

    closed spec fn view(&self) -> Map<K::V, i128> {
        Map::new(
            |k: K::V| self.key_views().contains(k),
            |k: K::V| self.amounts@[self.key_views().index_of(k)],
        )
    }
}

} // verus!
