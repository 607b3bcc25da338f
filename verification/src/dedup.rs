//! Dedup cache: a bounded, insertion-ordered store of content
//! fingerprints with FIFO eviction. Inserting a fingerprint that is
//! already present is a no-op; on overflow the oldest entries are dropped
//! from the front until the cache is back at its capacity.

use vstd::prelude::*;

verus! {

/// Whether the fingerprint is present.
pub open spec fn contains_fp(s: Seq<Seq<char>>, fp: Seq<char>) -> bool {
    exists|i: int| 0 <= i < s.len() && s[i] == fp
}

/// One insertion: append if absent, then drop from the front down to the
/// capacity.
pub open spec fn insert_fp(s: Seq<Seq<char>>, fp: Seq<char>, cap: nat) -> Seq<Seq<char>> {
    if contains_fp(s, fp) {
        s
    } else {
        let t = s.push(fp);
        if t.len() > cap {
            t.skip(t.len() - cap)
        } else {
            t
        }
    }
}

/// Every fingerprint of `fps` inserted in order.
pub open spec fn insert_all_fp(s: Seq<Seq<char>>, fps: Seq<Seq<char>>, cap: nat) -> Seq<
    Seq<char>,
>
    decreases fps.len(),
{
    if fps.len() == 0 {
        s
    } else {
        insert_all_fp(insert_fp(s, fps.first(), cap), fps.drop_first(), cap)
    }
}

/// No fingerprint occurs twice.
pub open spec fn all_distinct(fps: Seq<Seq<char>>) -> bool {
    forall|i: int, j: int| 0 <= i < j < fps.len() ==> fps[i] != fps[j]
}

/// The bounded fingerprint cache of one feed.
pub struct DedupCache {
    fingerprints: Vec<String>,
    capacity: usize,
}

impl View for DedupCache {
    type V = Seq<Seq<char>>;

    closed spec fn view(&self) -> Seq<Seq<char>> {
        self.fingerprints.deep_view()
    }
}

impl DedupCache {
    /// The maximum number of fingerprints kept.
    pub closed spec fn cap(&self) -> nat {
        self.capacity as nat
    }

    /// The cache never exceeds its capacity, which is at least one.
    pub open spec fn wf(&self) -> bool {
        self@.len() <= self.cap() && self.cap() >= 1
    }

    /// An empty cache with the given capacity.
    pub fn new(capacity: usize) -> (r: DedupCache)
        requires
            capacity >= 1,
        ensures
            r.wf(),
            r@ == Seq::<Seq<char>>::empty(),
            r.cap() == capacity,
    {
        let r = DedupCache { fingerprints: Vec::new(), capacity };
        proof {
            assert(r@ =~~= Seq::<Seq<char>>::empty());
        }
        r
    }

    /// A cache rebuilt from a persisted mirror: entries kept in order, the
    /// oldest dropped from the front if the mirror exceeds the capacity.
    pub fn from_entries(entries: Vec<String>, capacity: usize) -> (r: DedupCache)
        requires
            capacity >= 1,
        ensures
            r.wf(),
            r.cap() == capacity,
            r@ == if entries.deep_view().len() <= capacity {
                entries.deep_view()
            } else {
                entries.deep_view().skip(entries.deep_view().len() - capacity)
            },
    {
        let ghost t0 = entries.deep_view();
        let mut fingerprints = entries;
        proof {
            assert(t0.skip(0) =~~= t0);
        }
        while fingerprints.len() > capacity
            invariant
                capacity >= 1,
                fingerprints.deep_view().len() == fingerprints@.len(),
                fingerprints.deep_view() == t0.skip(t0.len() - fingerprints.deep_view().len()),
                fingerprints.deep_view().len() <= t0.len(),
                fingerprints.deep_view().len() >= capacity || fingerprints.deep_view().len()
                    == t0.len(),
            decreases fingerprints@.len(),
        {
            let ghost before = fingerprints.deep_view();
            fingerprints.remove(0);
            proof {
                assert(fingerprints.deep_view() =~~= before.drop_first());
                assert(before.drop_first() =~~= t0.skip(
                    t0.len() - fingerprints.deep_view().len(),
                ));
            }
        }
        let r = DedupCache { fingerprints, capacity };
        proof {
            if t0.len() <= capacity {
                assert(r@ =~~= t0);
            }
        }
        r
    }

    /// The number of fingerprints held.
    pub fn len(&self) -> (r: usize)
        ensures
            r == self@.len(),
    {
        self.fingerprints.len()
    }

    /// The fingerprints, oldest first, for persistence.
    pub fn entries(&self) -> (r: &Vec<String>)
        ensures
            r.deep_view() == self@,
    {
        &self.fingerprints
    }

    /// Whether the fingerprint is already cached.
    pub fn contains(&self, fp: &String) -> (r: bool)
        ensures
            r == contains_fp(self@, fp@),
    {
        let mut i: usize = 0;
        while i < self.fingerprints.len()
            invariant
                self.fingerprints.deep_view().len() == self.fingerprints@.len(),
                forall|j: int|
                    0 <= j < self.fingerprints@.len() ==> self.fingerprints.deep_view()[j]
                        == self.fingerprints@[j]@,
                i <= self.fingerprints@.len(),
                forall|j: int| 0 <= j < i ==> self.fingerprints@[j]@ != fp@,
            decreases self.fingerprints@.len() - i,
        {
            if self.fingerprints[i] == *fp {
                proof {
                    assert(self@[i as int] == fp@);
                }
                return true;
            }
            i = i + 1;
        }
        false
    }

    /// Inserts a fingerprint: a no-op if present, otherwise appended, with
    /// the oldest entries evicted down to the capacity.
    pub fn insert(&mut self, fp: String)
        requires
            old(self).wf(),
        ensures
            final(self).wf(),
            final(self).cap() == old(self).cap(),
            final(self)@ == insert_fp(old(self)@, fp@, old(self).cap()),
    {
        if self.contains(&fp) {
            return;
        }
        let ghost fpv = fp@;
        let ghost before = self.fingerprints.deep_view();
        self.fingerprints.push(fp);
        proof {
            assert(self.fingerprints.deep_view() =~~= before.push(fpv));
        }
        let ghost t0 = self.fingerprints.deep_view();
        while self.fingerprints.len() > self.capacity
            invariant
                self.capacity == old(self).capacity,
                self.capacity >= 1,
                self.fingerprints.deep_view().len() == self.fingerprints@.len(),
                self.fingerprints.deep_view() == t0.skip(
                    t0.len() - self.fingerprints.deep_view().len(),
                ),
                self.fingerprints.deep_view().len() <= t0.len(),
                self.fingerprints.deep_view().len() >= self.capacity
                    || self.fingerprints.deep_view().len() == t0.len(),
            decreases self.fingerprints@.len(),
        {
            let ghost b = self.fingerprints.deep_view();
            self.fingerprints.remove(0);
            proof {
                assert(self.fingerprints.deep_view() =~~= b.drop_first());
                assert(b.drop_first() =~~= t0.skip(
                    t0.len() - self.fingerprints.deep_view().len(),
                ));
            }
        }
        proof {
            if t0.len() <= self.capacity {
                assert(self@ =~~= t0.skip(0));
            }
        }
    }
}

/// Inserting a fingerprint makes it present, and inserting it again
/// changes nothing: deduplication is idempotent.
pub proof fn lemma_insert_idempotent(s: Seq<Seq<char>>, fp: Seq<char>, cap: nat)
    requires
        s.len() <= cap,
        cap >= 1,
    ensures
        contains_fp(insert_fp(s, fp, cap), fp),
        insert_fp(insert_fp(s, fp, cap), fp, cap) == insert_fp(s, fp, cap),
{
    let r = insert_fp(s, fp, cap);
    if !contains_fp(s, fp) {
        let t = s.push(fp);
        assert(t[t.len() - 1] == fp);
        if t.len() > cap {
            assert(r == t.skip(t.len() - cap));
            assert(r[r.len() - 1] == fp);
        } else {
            assert(r[r.len() - 1] == fp);
        }
    }
    assert(contains_fp(r, fp));
}

proof fn lemma_insert_all_run(s: Seq<Seq<char>>, fps: Seq<Seq<char>>, cap: nat)
    requires
        cap >= 1,
        s.len() <= cap,
        all_distinct(fps),
        forall|i: int| 0 <= i < fps.len() ==> !contains_fp(s, fps[i]),
    ensures
        insert_all_fp(s, fps, cap) == if s.len() + fps.len() <= cap {
            s + fps
        } else {
            (s + fps).skip(s.len() + fps.len() - cap)
        },
    decreases fps.len(),
{
    if fps.len() == 0 {
        assert(s + fps =~~= s);
    } else {
        let first = fps.first();
        assert(!contains_fp(s, first));
        let t = s.push(first);
        let r1 = insert_fp(s, first, cap);
        let rest = fps.drop_first();
        assert(forall|i: int|
            0 <= i < rest.len() ==> rest[i] == fps[i + 1] && rest[i] != first);
        if t.len() > cap {
            assert(s.len() == cap);
            assert(r1 == t.skip(1));
            assert(r1.len() == cap);
            assert(forall|i: int|
                0 <= i < rest.len() ==> !contains_fp(s, rest[i]) && rest[i] != first);
            assert forall|i: int| 0 <= i < rest.len() implies !contains_fp(r1, rest[i]) by {
                assert(forall|j: int| 0 <= j < r1.len() ==> r1[j] == t[j + 1]);
                assert(forall|j: int|
                    0 <= j < t.len() ==> t[j] == (if j < s.len() {
                        s[j]
                    } else {
                        first
                    }));
            }
            lemma_insert_all_run(r1, rest, cap);
            assert(r1 + rest =~~= (s + fps).skip(1));
            if r1.len() + rest.len() <= cap {
                assert(rest.len() == 0);
                assert(insert_all_fp(s, fps, cap) == r1 + rest);
                assert((s + fps).skip(s.len() + fps.len() - cap) =~~= r1 + rest);
            } else {
                assert(insert_all_fp(s, fps, cap) == (r1 + rest).skip(
                    r1.len() + rest.len() - cap,
                ));
                assert((s + fps).skip(1).skip(r1.len() + rest.len() - cap) =~~= (s + fps).skip(
                    s.len() + fps.len() - cap,
                ));
            }
        } else {
            assert(r1 == t);
            assert forall|i: int| 0 <= i < rest.len() implies !contains_fp(r1, rest[i]) by {
                assert(forall|j: int|
                    0 <= j < t.len() ==> t[j] == (if j < s.len() {
                        s[j]
                    } else {
                        first
                    }));
            }
            lemma_insert_all_run(r1, rest, cap);
            assert(r1 + rest =~~= s + fps);
        }
    }
}

/// Filling the cache with distinct fingerprints keeps exactly the most
/// recent `cap` of them, the oldest evicted first; fewer than `cap`
/// inserts keep them all.
pub proof fn lemma_fill_evicts_oldest(fps: Seq<Seq<char>>, cap: nat)
    requires
        cap >= 1,
        all_distinct(fps),
    ensures
        insert_all_fp(Seq::empty(), fps, cap) == if fps.len() <= cap {
            fps
        } else {
            fps.skip(fps.len() - cap)
        },
{
    let empty = Seq::<Seq<char>>::empty();
    assert(forall|i: int| 0 <= i < fps.len() ==> !contains_fp(empty, fps[i]));
    lemma_insert_all_run(empty, fps, cap);
    assert(empty + fps =~~= fps);
    if fps.len() <= cap {
        assert(insert_all_fp(empty, fps, cap) == empty + fps);
    } else {
        assert((empty + fps).skip(fps.len() - cap) =~~= fps.skip(fps.len() - cap));
    }
}

} // verus!
