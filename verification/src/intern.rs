//! An interning table over byte strings: each distinct value gets a stable
//! index, assigned in first-insertion order and never renumbered. Lookups go
//! through a hash index (buckets of candidate indices per canonical hash)
//! and fall back to a full equality check inside a bucket, so interning is
//! amortized constant time rather than a linear scan.

use vstd::prelude::*;
use std::collections::HashMap;

verus! {

broadcast use vstd::std_specs::hash::group_hash_axioms;

/// One step of the FNV-1a hash over bytes.
pub open spec fn fnv_step(h: u64, b: u8) -> u64 {
    (((h ^ (b as u64)) as nat * 0x100000001b3) % 0x10000000000000000) as u64
}

/// The FNV-1a hash of a byte sequence: the canonical hash that keys the
/// lookup index.
pub open spec fn fnv_of(s: Seq<u8>) -> u64
    decreases s.len(),
{
    if s.len() == 0 {
        0xcbf29ce484222325u64
    } else {
        fnv_step(fnv_of(s.drop_last()), s.last())
    }
}

fn fnv(s: &[u8]) -> (h: u64)
    ensures
        h == fnv_of(s@),
{
    let mut h: u64 = 0xcbf29ce484222325;
    let mut i: usize = 0;
    while i < s.len()
        invariant
            i <= s@.len(),
            h == fnv_of(s@.take(i as int)),
        decreases s@.len() - i,
    {
        let x = h ^ (s[i] as u64);
        h = x.wrapping_mul(0x100000001b3);
        proof {
            assert(s@.take(i + 1).drop_last() =~= s@.take(i as int));
        }
        i = i + 1;
    }
    proof {
        assert(s@.take(s@.len() as int) =~= s@);
    }
    h
}

/// No two entries hold the same bytes.
pub open spec fn distinct_seqs(s: Seq<Seq<u8>>) -> bool {
    forall|i: int, j: int|
        #![trigger s[i], s[j]]
        0 <= i < j < s.len() ==> s[i] != s[j]
}

/// The interning table: the entries in first-insertion order, plus the hash
/// index over them.
pub struct ByteInterner {
    entries: Vec<Vec<u8>>,
    index: HashMap<u64, Vec<usize>>,
}

impl View for ByteInterner {
    type V = Seq<Seq<u8>>;

    closed spec fn view(&self) -> Seq<Seq<u8>> {
        self.entries@.map_values(|v: Vec<u8>| v@)
    }
}

impl ByteInterner {
    /// Entry `i` is reachable through the bucket of its hash.
    pub closed spec fn entry_indexed(&self, i: int) -> bool {
        let k = fnv_of(self.entries@[i]@);
        &&& self.index@.contains_key(k)
        &&& self.index@[k]@.contains(i as usize)
    }

    /// Well-formedness: entries are distinct, every entry is reachable
    /// through the index, and the index points only at entries of its own
    /// hash.
    pub closed spec fn wf(&self) -> bool {
        &&& distinct_seqs(self@)
        &&& forall|i: int| 0 <= i < self.entries@.len() ==> #[trigger] self.entry_indexed(i)
        &&& forall|k: u64, j: int|
            self.index@.contains_key(k) && 0 <= j < self.index@[k]@.len() ==> (
            #[trigger] self.index@[k]@[j]) < self.entries@.len() && fnv_of(
                self.entries@[self.index@[k]@[j] as int]@,
            ) == k
    }

    pub fn new() -> (r: ByteInterner)
        ensures
            r.wf(),
            r@ == Seq::<Seq<u8>>::empty(),
    {
        let r = ByteInterner { entries: Vec::new(), index: HashMap::new() };
        proof {
            assert(r@ =~= Seq::<Seq<u8>>::empty());
        }
        r
    }

    pub fn len(&self) -> (r: usize)
        ensures
            r == self@.len(),
    {
        self.entries.len()
    }

    /// A borrow of entry `i`.
    pub fn entry(&self, i: usize) -> (r: &Vec<u8>)
        requires
            i < self@.len(),
        ensures
            r@ == self@[i as int],
    {
        &self.entries[i]
    }

    /// A well-formed table never holds the same bytes twice.
    pub proof fn lemma_distinct(&self)
        requires
            self.wf(),
        ensures
            distinct_seqs(self@),
    {
    }

    /// Finds the entry equal to `key`, if one is interned.
    pub fn lookup(&self, key: &[u8]) -> (r: Option<usize>)
        requires
            self.wf(),
        ensures
            match r {
                Some(n) => n < self@.len() && self@[n as int] == key@,
                None => forall|i: int| 0 <= i < self@.len() ==> self@[i] != key@,
            },
    {
        let h = fnv(key);
        let mut hit: Option<usize> = None;
        match self.index.get(&h) {
            Some(bucket) => {
                let mut j: usize = 0;
                while j < bucket.len()
                    invariant
                        self.wf(),
                        self.index@.contains_key(h),
                        self.index@[h] == *bucket,
                        j <= bucket@.len(),
                        h == fnv_of(key@),
                        match hit {
                            None => forall|j2: int|
                                0 <= j2 < j ==> self.entries@[#[trigger] bucket@[j2] as int]@
                                    != key@,
                            Some(n) => n < self.entries@.len() && self.entries@[n as int]@ == key@,
                        },
                    decreases bucket@.len() - j,
                {
                    let n = bucket[j];
                    proof {
                        assert(self.index@[h]@[j as int] == n);
                    }
                    if crate::bytes::bytes_eq(self.entries[n].as_slice(), key) {
                        hit = Some(n);
                    }
                    j = j + 1;
                }
                if hit.is_none() {
                    proof {
                        assert forall|i: int|
                            0 <= i < self.entries@.len() implies self.entries@[i]@ != key@ by {
                            if self.entries@[i]@ == key@ {
                                assert(self.entry_indexed(i));
                                assert(bucket@ == self.index@[h]@);
                                assert(bucket@.contains(i as usize));
                                let j2 = choose|j2: int|
                                    0 <= j2 < bucket@.len() && bucket@[j2] == i as usize;
                                assert(self.entries@.len() == self.entries.len());
                                assert(bucket@[j2] as int == i);
                                assert(self.entries@[bucket@[j2] as int]@ != key@);
                                assert(false);
                            }
                        }
                    }
                }
            }
            None => {
                proof {
                    assert forall|i: int|
                        0 <= i < self.entries@.len() implies self.entries@[i]@ != key@ by {
                        if self.entries@[i]@ == key@ {
                            assert(self.entry_indexed(i));
                        }
                    }
                }
            }
        }
        hit
    }

    /// Interns `key`: returns the index of the entry equal to it, adding it
    /// at the end when it is new. Existing indices never move.
    pub fn intern(&mut self, key: Vec<u8>) -> (r: usize)
        requires
            old(self).wf(),
        ensures
            final(self).wf(),
            r < final(self)@.len(),
            final(self)@[r as int] == key@,
            forall|i: int|
                0 <= i < old(self)@.len() && old(self)@[i] == key@ ==> final(self)@ == old(
                    self,
                )@ && r == i,
            (forall|i: int| 0 <= i < old(self)@.len() ==> old(self)@[i] != key@) ==> final(self)@
                == old(self)@.push(key@) && r == old(self)@.len(),
    {
        match self.lookup(key.as_slice()) {
            Some(n) => {
                proof {
                    assert(self@[n as int] == key@);
                    assert forall|i: int|
                        0 <= i < old(self)@.len() && old(self)@[i] == key@ implies self@ == old(
                        self,
                    )@ && n == i by {
                        if i != n as int {
                            assert(self@[i] != self@[n as int]);
                        }
                    }
                }
                n
            }
            None => {
                let h = fnv(key.as_slice());
                let ghost pre = *self;
                let n = self.entries.len();
                let mut bucket: Vec<usize> = match self.index.remove(&h) {
                    Some(b) => b,
                    None => Vec::new(),
                };
                let ghost bpre = bucket@;
                bucket.push(n);
                self.entries.push(key);
                self.index.insert(h, bucket);
                proof {
                    let post = *self;
                    assert(post@ =~= pre@.push(key@));
                    // Distinctness: the new entry differs from every old one.
                    assert forall|i: int, j: int|
                        #![trigger post@[i], post@[j]]
                        0 <= i < j < post@.len() implies post@[i] != post@[j] by {
                        if j < pre@.len() {
                            assert(pre@[i] != pre@[j]);
                        } else {
                            assert(pre@[i] != key@);
                        }
                    }
                    // The index still reaches every entry.
                    assert forall|i: int|
                        0 <= i < post.entries@.len() implies #[trigger] post.entry_indexed(
                        i,
                    ) by {
                        let k = fnv_of(post.entries@[i]@);
                        if i < pre.entries@.len() {
                            assert(pre.entry_indexed(i));
                            if k == h {
                                assert(pre.index@[h]@ == bpre);
                                let j2 = choose|j2: int|
                                    0 <= j2 < bpre.len() && bpre[j2] == i as usize;
                                assert(post.index@[h]@[j2] == i as usize);
                                assert(post.index@[h]@.contains(i as usize));
                            } else {
                                assert(post.index@[k] == pre.index@[k]);
                            }
                        } else {
                            assert(post.entries@[i]@ == key@);
                            assert(post.index@[h]@.last() == n as usize);
                            assert(post.index@[h]@.contains(n as usize));
                        }
                    }
                    // The index points only at entries of its own hash.
                    assert forall|k: u64, j: int|
                        post.index@.contains_key(k) && 0 <= j < post.index@[k]@.len() implies (
                    #[trigger] post.index@[k]@[j]) < post.entries@.len() && fnv_of(
                        post.entries@[post.index@[k]@[j] as int]@,
                    ) == k by {
                        if k == h {
                            if j < bpre.len() {
                                if pre.index@.contains_key(h) {
                                    assert(pre.index@[h]@[j] == bpre[j]);
                                }
                            } else {
                                assert(post.index@[h]@[j] == n as usize);
                            }
                        } else {
                            assert(pre.index@.contains_key(k) && pre.index@[k] == post.index@[k]);
                        }
                    }
                }
                n
            }
        }
    }
}

} // verus!
