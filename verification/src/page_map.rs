//! A sparse table of 64-bit page-table entries, keyed by the packed path of
//! an entry inside the translation tree.  A key that was never written holds
//! the entry 0, so the table behaves like an arbitrarily large zero-filled
//! arena while storing only the entries that were touched.

use vstd::prelude::*;

verus! {

/// The entry stored for key `k` in an association sequence, reading from the
/// back so that the most recently pushed binding wins; 0 when `k` is absent.
pub open spec fn table_lookup(s: Seq<(u64, u64)>, k: u64) -> u64
    decreases s.len(),
{
    if s.len() == 0 {
        0u64
    } else if s.last().0 == k {
        s.last().1
    } else {
        table_lookup(s.drop_last(), k)
    }
}

/// No key occurs twice in the association sequence.
pub open spec fn keys_unique(s: Seq<(u64, u64)>) -> bool {
    forall|i: int, j: int| 0 <= i < j < s.len() ==> (#[trigger] s[i]).0 != (#[trigger] s[j]).0
}

proof fn lemma_lookup_absent(s: Seq<(u64, u64)>, k: u64)
    requires
        forall|i: int| 0 <= i < s.len() ==> (#[trigger] s[i]).0 != k,
    ensures
        table_lookup(s, k) == 0,
    decreases s.len(),
{
    if s.len() > 0 {
        lemma_lookup_absent(s.drop_last(), k);
    }
}

proof fn lemma_lookup_found(s: Seq<(u64, u64)>, i: int)
    requires
        keys_unique(s),
        0 <= i < s.len(),
    ensures
        table_lookup(s, s[i].0) == s[i].1,
    decreases s.len(),
{
    if i == s.len() - 1 {
    } else {
        assert(s.last().0 != s[i].0);
        assert(keys_unique(s.drop_last()));
        lemma_lookup_found(s.drop_last(), i);
    }
}

proof fn lemma_lookup_update(s: Seq<(u64, u64)>, i: int, v: u64, k2: u64)
    requires
        keys_unique(s),
        0 <= i < s.len(),
    ensures
        table_lookup(s.update(i, (s[i].0, v)), k2) == if k2 == s[i].0 {
            v
        } else {
            table_lookup(s, k2)
        },
    decreases s.len(),
{
    let t = s.update(i, (s[i].0, v));
    if i == s.len() - 1 {
        assert(t.last() == (s[i].0, v));
        assert(t.drop_last() =~= s.drop_last());
    } else {
        assert(t.last() == s.last());
        assert(t.drop_last() =~= s.drop_last().update(i, (s[i].0, v)));
        assert(keys_unique(s.drop_last()));
        assert(s.last().0 != s[i].0);
        lemma_lookup_update(s.drop_last(), i, v, k2);
        assert(s.drop_last()[i] == s[i]);
    }
}

proof fn lemma_lookup_push(s: Seq<(u64, u64)>, k: u64, v: u64, k2: u64)
    ensures
        table_lookup(s.push((k, v)), k2) == if k2 == k {
            v
        } else {
            table_lookup(s, k2)
        },
{
    let t = s.push((k, v));
    assert(t.last() == (k, v));
    assert(t.drop_last() =~= s);
}

/// A sparse map from entry paths to 64-bit entries; unwritten paths read 0.
pub struct PageMap {
    entries: Vec<(u64, u64)>,
}

impl PageMap {
    /// Keys are stored at most once.
    pub closed spec fn wf(self) -> bool {
        keys_unique(self.entries@)
    }

    /// The entry stored for key `k`; 0 when `k` was never written.
    pub closed spec fn spec_get(self, k: u64) -> u64 {
        table_lookup(self.entries@, k)
    }

    /// An empty table: every key reads 0.
    pub fn new() -> (r: PageMap)
        ensures
            r.wf(),
            forall|k: u64| r.spec_get(k) == 0,
    {
        let r = PageMap { entries: Vec::new() };
        proof {
            assert forall|k: u64| r.spec_get(k) == 0 by {
                assert(r.entries@.len() == 0);
            }
        }
        r
    }

    /// Read the entry stored for `k`.
    pub fn get(&self, k: u64) -> (r: u64)
        requires
            self.wf(),
        ensures
            r == self.spec_get(k),
    {
        let n = self.entries.len();
        let mut i: usize = 0;
        while i < n
            invariant
                self.wf(),
                n == self.entries@.len(),
                i <= n,
                forall|j: int| 0 <= j < i ==> (#[trigger] self.entries@[j]).0 != k,
            decreases n - i,
        {
            if self.entries[i].0 == k {
                proof {
                    lemma_lookup_found(self.entries@, i as int);
                }
                return self.entries[i].1;
            }
            i = i + 1;
        }
        proof {
            lemma_lookup_absent(self.entries@, k);
        }
        0
    }

    /// Store `v` for `k`, leaving every other key unchanged.
    pub fn set(&mut self, k: u64, v: u64)
        requires
            old(self).wf(),
        ensures
            final(self).wf(),
            final(self).spec_get(k) == v,
            forall|k2: u64| k2 != k ==> final(self).spec_get(k2) == old(self).spec_get(k2),
    {
        let n = self.entries.len();
        let mut i: usize = 0;
        while i < n
            invariant
                self.wf(),
                self == old(self),
                n == self.entries@.len(),
                i <= n,
                forall|j: int| 0 <= j < i ==> (#[trigger] self.entries@[j]).0 != k,
            decreases n - i,
        {
            if self.entries[i].0 == k {
                let ghost s0 = self.entries@;
                self.entries[i] = (k, v);
                proof {
                    assert(self.entries@ =~= s0.update(i as int, (s0[i as int].0, v)));
                    assert forall|i2: int, j2: int|
                        0 <= i2 < j2 < self.entries@.len() implies (#[trigger] self.entries@[i2]).0
                        != (#[trigger] self.entries@[j2]).0 by {
                        assert(s0[i2].0 != s0[j2].0);
                    }
                    assert forall|k2: u64| #[trigger] self.spec_get(k2) == if k2 == k {
                        v
                    } else {
                        table_lookup(s0, k2)
                    } by {
                        lemma_lookup_update(s0, i as int, v, k2);
                    }
                }
                return;
            }
            i = i + 1;
        }
        let ghost s0 = self.entries@;
        self.entries.push((k, v));
        proof {
            assert forall|i2: int, j2: int|
                0 <= i2 < j2 < self.entries@.len() implies (#[trigger] self.entries@[i2]).0
                != (#[trigger] self.entries@[j2]).0 by {
                if j2 < s0.len() {
                    assert(s0[i2].0 != s0[j2].0);
                } else {
                    assert(self.entries@[j2] == (k, v));
                    assert(s0[i2].0 != k);
                }
            }
            assert forall|k2: u64| #[trigger] self.spec_get(k2) == if k2 == k {
                v
            } else {
                table_lookup(s0, k2)
            } by {
                lemma_lookup_push(s0, k, v, k2);
            }
        }
    }
}

} // verus!
