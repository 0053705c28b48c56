//! An ordered sparse map from `u64` keys to values, kept as a vector sorted
//! by key. The worksheet grid and the column table live in one: row-major
//! serialization is a plain left-to-right walk, and a write is an update or
//! a sorted insert.

use vstd::prelude::*;

verus! {

/// Linear lookup in an association sequence.
pub open spec fn seq_get<T>(s: Seq<(u64, T)>, k: u64) -> Option<T>
    decreases s.len(),
{
    if s.len() == 0 {
        None
    } else if s[0].0 == k {
        Some(s[0].1)
    } else {
        seq_get(s.skip(1), k)
    }
}

/// Insertion into an association sequence sorted by key: updates the entry
/// with key `k`, or places one at its sorted position.
pub open spec fn spec_set<T>(s: Seq<(u64, T)>, k: u64, v: T) -> Seq<(u64, T)>
    decreases s.len(),
{
    if s.len() == 0 {
        seq![(k, v)]
    } else if k < s[0].0 {
        seq![(k, v)] + s
    } else if k == s[0].0 {
        s.update(0, (k, v))
    } else {
        seq![s[0]] + spec_set(s.skip(1), k, v)
    }
}

/// Keys strictly increase left to right.
pub open spec fn sorted_keys<T>(s: Seq<(u64, T)>) -> bool {
    forall|i: int, j: int| #![trigger s[i], s[j]] 0 <= i < j < s.len() ==> s[i].0 < s[j].0
}

/// `spec_set` keeps the keys sorted.
pub proof fn lemma_set_sorted<T>(s: Seq<(u64, T)>, k: u64, v: T)
    requires
        sorted_keys(s),
    ensures
        sorted_keys(spec_set(s, k, v)),
    decreases s.len(),
{
    if s.len() == 0 {
    } else if k < s[0].0 {
        let t = seq![(k, v)] + s;
        assert forall|i: int, j: int|
            #![trigger t[i], t[j]]
            0 <= i < j < t.len() implies t[i].0 < t[j].0 by {
            if 0 < i {
                assert(s[i - 1].0 < s[j - 1].0);
            } else if 1 < j {
                assert(s[0].0 < s[j - 1].0);
            }
        }
    } else if k == s[0].0 {
    } else {
        lemma_set_sorted(s.skip(1), k, v);
        let r = spec_set(s.skip(1), k, v);
        let t = seq![s[0]] + r;
        lemma_set_front_key(s.skip(1), k, v, s[0].0);
        assert forall|i: int, j: int|
            #![trigger t[i], t[j]]
            0 <= i < j < t.len() implies t[i].0 < t[j].0 by {
            if 0 < i {
                assert(r[i - 1].0 < r[j - 1].0);
            }
        }
    }
}

/// Every key of `spec_set(s, k, v)` is a key of `s` or is `k`; in
/// particular a lower bound below them all stays a lower bound.
pub proof fn lemma_set_front_key<T>(s: Seq<(u64, T)>, k: u64, v: T, bound: u64)
    requires
        bound < k,
        forall|i: int| #![trigger s[i]] 0 <= i < s.len() ==> bound < s[i].0,
    ensures
        forall|i: int|
            #![trigger spec_set(s, k, v)[i]]
            0 <= i < spec_set(s, k, v).len() ==> bound < spec_set(s, k, v)[i].0,
    decreases s.len(),
{
    let t = spec_set(s, k, v);
    if s.len() == 0 {
        assert(t =~= seq![(k, v)]);
        assert(t[0].0 == k);
    } else if k < s[0].0 {
        assert forall|i: int| #![trigger t[i]] 0 <= i < t.len() implies bound < t[i].0 by {
            if i > 0 {
                assert(t[i] == s[i - 1]);
            }
        }
    } else if k == s[0].0 {
        assert forall|i: int| #![trigger t[i]] 0 <= i < t.len() implies bound < t[i].0 by {
            if i > 0 {
                assert(t[i] == s[i]);
            }
        }
    } else {
        assert forall|i: int| #![trigger s.skip(1)[i]] 0 <= i < s.skip(1).len() implies bound < s.skip(
            1,
        )[i].0 by {
            assert(s.skip(1)[i] == s[i + 1]);
        }
        lemma_set_front_key(s.skip(1), k, v, bound);
        assert forall|i: int| #![trigger t[i]] 0 <= i < t.len() implies bound < t[i].0 by {
            if i > 0 {
                assert(t[i] == spec_set(s.skip(1), k, v)[i - 1]);
            }
        }
    }
}

/// A strict upper bound on the keys of `s` and on `k` bounds the keys of
/// `spec_set(s, k, v)`.
pub proof fn lemma_set_keys<T>(s: Seq<(u64, T)>, k: u64, v: T, bound: u64)
    requires
        k < bound,
        forall|i: int| #![trigger s[i]] 0 <= i < s.len() ==> s[i].0 < bound,
    ensures
        forall|i: int|
            #![trigger spec_set(s, k, v)[i]]
            0 <= i < spec_set(s, k, v).len() ==> spec_set(s, k, v)[i].0 < bound,
    decreases s.len(),
{
    let t = spec_set(s, k, v);
    if s.len() == 0 {
        assert(t =~= seq![(k, v)]);
        assert(t[0].0 == k);
    } else if k < s[0].0 {
        assert forall|i: int| #![trigger t[i]] 0 <= i < t.len() implies t[i].0 < bound by {
            if i > 0 {
                assert(t[i] == s[i - 1]);
            }
        }
    } else if k == s[0].0 {
        assert forall|i: int| #![trigger t[i]] 0 <= i < t.len() implies t[i].0 < bound by {
            if i > 0 {
                assert(t[i] == s[i]);
            }
        }
    } else {
        assert forall|i: int| #![trigger s.skip(1)[i]] 0 <= i < s.skip(1).len() implies s.skip(
            1,
        )[i].0 < bound by {
            assert(s.skip(1)[i] == s[i + 1]);
        }
        lemma_set_keys(s.skip(1), k, v, bound);
        assert forall|i: int| #![trigger t[i]] 0 <= i < t.len() implies t[i].0 < bound by {
            if i > 0 {
                assert(t[i] == spec_set(s.skip(1), k, v)[i - 1]);
            }
        }
    }
}


/// A property of every entry and of the new pair holds of every entry of
/// `spec_set(s, k, v)`.
pub proof fn lemma_set_all<T>(s: Seq<(u64, T)>, k: u64, v: T, p: spec_fn((u64, T)) -> bool)
    requires
        p((k, v)),
        forall|i: int| #![trigger s[i]] 0 <= i < s.len() ==> p(s[i]),
    ensures
        forall|i: int|
            #![trigger spec_set(s, k, v)[i]]
            0 <= i < spec_set(s, k, v).len() ==> p(spec_set(s, k, v)[i]),
    decreases s.len(),
{
    let t = spec_set(s, k, v);
    if s.len() == 0 {
        assert(t =~= seq![(k, v)]);
        assert(t[0] == (k, v));
    } else if k < s[0].0 {
        assert forall|i: int| #![trigger t[i]] 0 <= i < t.len() implies p(t[i]) by {
            if i > 0 {
                assert(t[i] == s[i - 1]);
            } else {
                assert(t[0] == (k, v));
            }
        }
    } else if k == s[0].0 {
        assert forall|i: int| #![trigger t[i]] 0 <= i < t.len() implies p(t[i]) by {
            if i > 0 {
                assert(t[i] == s[i]);
            } else {
                assert(t[0] == (k, v));
            }
        }
    } else {
        assert forall|i: int| #![trigger s.skip(1)[i]] 0 <= i < s.skip(1).len() implies p(
            s.skip(1)[i],
        ) by {
            assert(s.skip(1)[i] == s[i + 1]);
        }
        lemma_set_all(s.skip(1), k, v, p);
        assert forall|i: int| #![trigger t[i]] 0 <= i < t.len() implies p(t[i]) by {
            if i > 0 {
                assert(t[i] == spec_set(s.skip(1), k, v)[i - 1]);
            } else {
                assert(t[0] == s[0]);
            }
        }
    }
}

/// What `seq_get` sees after a `spec_set`: the new value at `k`, the old
/// ones everywhere else.
pub proof fn lemma_get_set<T>(s: Seq<(u64, T)>, k: u64, v: T, q: u64)
    ensures
        seq_get(spec_set(s, k, v), q) == (if q == k {
            Some(v)
        } else {
            seq_get(s, q)
        }),
    decreases s.len(),
{
    let t = spec_set(s, k, v);
    if s.len() == 0 {
        assert(t =~= seq![(k, v)]);
        assert(t[0] == (k, v));
        assert(t.skip(1) =~= Seq::<(u64, T)>::empty());
        assert(seq_get(t, q) == (if q == k {
            Some(v)
        } else {
            seq_get(Seq::<(u64, T)>::empty(), q)
        }));
    } else if k < s[0].0 {
        assert(t == seq![(k, v)] + s);
        assert(t[0] == (k, v));
        assert(t.skip(1) =~= s);
    } else if k == s[0].0 {
        assert(t == s.update(0, (k, v)));
        assert(t[0] == (k, v));
        assert(t.skip(1) =~= s.skip(1));
        if q != k {
            assert(seq_get(s, q) == seq_get(s.skip(1), q));
        }
    } else {
        lemma_get_set(s.skip(1), k, v, q);
        assert(t == seq![s[0]] + spec_set(s.skip(1), k, v));
        assert(t.skip(1) =~= spec_set(s.skip(1), k, v));
        assert(t[0] == s[0]);
        if q == s[0].0 {
            assert(seq_get(t, q) == Some(s[0].1));
            assert(seq_get(s, q) == Some(s[0].1));
        } else {
            assert(seq_get(t, q) == seq_get(spec_set(s.skip(1), k, v), q));
            assert(seq_get(s, q) == seq_get(s.skip(1), q));
        }
    }
}

/// The sorted map itself.
pub struct SortedMap<V> {
    entries: Vec<(u64, V)>,
}

impl<V: View> View for SortedMap<V> {
    type V = Seq<(u64, <V as View>::V)>;

    closed spec fn view(&self) -> Seq<(u64, <V as View>::V)> {
        self.entries@.map_values(|p: (u64, V)| (p.0, p.1@))
    }
}

impl<V: View> SortedMap<V> {
    pub closed spec fn wf(&self) -> bool {
        sorted_keys(self@)
    }

    pub fn new() -> (r: SortedMap<V>)
        ensures
            r.wf(),
            r@ == Seq::<(u64, <V as View>::V)>::empty(),
    {
        let r = SortedMap { entries: Vec::new() };
        proof {
            assert(r@ =~= Seq::<(u64, <V as View>::V)>::empty());
        }
        r
    }

    pub fn len(&self) -> (r: usize)
        ensures
            r == self@.len(),
    {
        self.entries.len()
    }

    /// A borrow of the entry at position `i` in key order.
    pub fn at(&self, i: usize) -> (r: &(u64, V))
        requires
            i < self@.len(),
        ensures
            r.0 == self@[i as int].0,
            r.1@ == self@[i as int].1,
    {
        &self.entries[i]
    }

    /// Looks the key up.
    pub fn get(&self, k: u64) -> (r: Option<&V>)
        requires
            self.wf(),
        ensures
            match r {
                Some(v) => seq_get(self@, k) == Some(v@),
                None => seq_get(self@, k) is None,
            },
    {
        let mut i: usize = 0;
        proof {
            assert(self@.skip(0) =~= self@);
        }
        while i < self.entries.len()
            invariant
                i <= self@.len(),
                seq_get(self@, k) == seq_get(self@.skip(i as int), k),
                self@.len() == self.entries@.len(),
                forall|j: int|
                    0 <= j < self@.len() ==> (#[trigger] self@[j]) == (self.entries@[j].0,
                    self.entries@[j].1@),
            decreases self@.len() - i,
        {
            if self.entries[i].0 == k {
                proof {
                    assert(self@.skip(i as int)[0] == self@[i as int]);
                }
                return Some(&self.entries[i].1);
            }
            proof {
                assert(self@.skip(i as int)[0] == self@[i as int]);
                assert(self@.skip(i as int).skip(1) =~= self@.skip(i + 1));
            }
            i = i + 1;
        }
        proof {
            assert(self@.skip(i as int) =~= Seq::<(u64, <V as View>::V)>::empty());
        }
        None
    }

    /// Updates the value under `k`, or inserts one at its sorted position.
    pub fn set(&mut self, k: u64, v: V)
        requires
            old(self).wf(),
        ensures
            final(self).wf(),
            final(self)@ == spec_set(old(self)@, k, v@),
    {
        let ghost pre = self@;
        let mut lo: usize = 0;
        while lo < self.entries.len() && self.entries[lo].0 < k
            invariant
                lo <= self@.len(),
                self@ == pre,
                self@.len() == self.entries@.len(),
                forall|j: int|
                    0 <= j < self@.len() ==> (#[trigger] self@[j]) == (self.entries@[j].0,
                    self.entries@[j].1@),
                forall|j: int| 0 <= j < lo ==> (#[trigger] self@[j]).0 < k,
            decreases self@.len() - lo,
        {
            lo = lo + 1;
        }
        if lo < self.entries.len() && self.entries[lo].0 == k {
            self.entries[lo] = (k, v);
            proof {
                assert(self@ =~= pre.update(lo as int, (k, v@)));
                lemma_set_at(pre, k, v@, lo as int);
                lemma_set_sorted(pre, k, v@);
            }
        } else {
            self.entries.insert(lo, (k, v));
            proof {
                assert(self@ =~= pre.take(lo as int) + seq![(k, v@)] + pre.skip(lo as int));
                lemma_set_insert(pre, k, v@, lo as int);
                lemma_set_sorted(pre, k, v@);
            }
        }
    }
}

/// When the scan stops on an equal key, `spec_set` is an update in place.
pub proof fn lemma_set_at<T>(s: Seq<(u64, T)>, k: u64, v: T, pos: int)
    requires
        sorted_keys(s),
        0 <= pos < s.len(),
        s[pos].0 == k,
        forall|j: int| 0 <= j < pos ==> (#[trigger] s[j]).0 < k,
    ensures
        spec_set(s, k, v) == s.update(pos, (k, v)),
    decreases pos,
{
    if pos == 0 {
    } else {
        assert(s[0].0 < k);
        assert forall|j: int| 0 <= j < pos - 1 implies (#[trigger] s.skip(1)[j]).0 < k by {
            assert(s.skip(1)[j] == s[j + 1]);
        }
        assert(s.skip(1)[pos - 1] == s[pos]);
        assert forall|i: int, j: int|
            #![trigger s.skip(1)[i], s.skip(1)[j]]
            0 <= i < j < s.skip(1).len() implies s.skip(1)[i].0 < s.skip(1)[j].0 by {
            assert(s.skip(1)[i] == s[i + 1] && s.skip(1)[j] == s[j + 1]);
        }
        lemma_set_at(s.skip(1), k, v, pos - 1);
        assert(spec_set(s, k, v) == seq![s[0]] + s.skip(1).update(pos - 1, (k, v)));
        assert(seq![s[0]] + s.skip(1).update(pos - 1, (k, v)) =~= s.update(pos, (k, v)));
    }
}

/// When the scan stops on a larger key or the end, `spec_set` is an insert
/// at that position.
pub proof fn lemma_set_insert<T>(s: Seq<(u64, T)>, k: u64, v: T, pos: int)
    requires
        sorted_keys(s),
        0 <= pos <= s.len(),
        pos < s.len() ==> s[pos].0 > k,
        forall|j: int| 0 <= j < pos ==> (#[trigger] s[j]).0 < k,
    ensures
        spec_set(s, k, v) == s.take(pos) + seq![(k, v)] + s.skip(pos),
    decreases pos,
{
    if pos == 0 {
        if s.len() == 0 {
            assert(spec_set(s, k, v) =~= s.take(0) + seq![(k, v)] + s.skip(0));
        } else {
            assert(s.take(0) + seq![(k, v)] + s.skip(0) =~= seq![(k, v)] + s);
        }
    } else {
        assert(s[0].0 < k);
        assert forall|j: int| 0 <= j < pos - 1 implies (#[trigger] s.skip(1)[j]).0 < k by {
            assert(s.skip(1)[j] == s[j + 1]);
        }
        if pos < s.len() {
            assert(s.skip(1)[pos - 1] == s[pos]);
        }
        assert forall|i: int, j: int|
            #![trigger s.skip(1)[i], s.skip(1)[j]]
            0 <= i < j < s.skip(1).len() implies s.skip(1)[i].0 < s.skip(1)[j].0 by {
            assert(s.skip(1)[i] == s[i + 1] && s.skip(1)[j] == s[j + 1]);
        }
        lemma_set_insert(s.skip(1), k, v, pos - 1);
        assert(spec_set(s, k, v) == seq![s[0]] + (s.skip(1).take(pos - 1) + seq![(k, v)] + s.skip(
            1,
        ).skip(pos - 1)));
        assert(seq![s[0]] + (s.skip(1).take(pos - 1) + seq![(k, v)] + s.skip(1).skip(pos - 1)) =~= s.take(
            pos,
        ) + seq![(k, v)] + s.skip(pos));
    }
}

} // verus!
