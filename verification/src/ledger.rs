use vstd::prelude::*;

use crate::coin::Txid;
use crate::search::{find_first, lemma_find_first};

verus! {

/// The pool addresses touched by one transaction, in insertion order and
/// without duplicates.
#[derive(Clone, Debug, PartialEq, Eq)]
pub struct TxRecord {
    pub pools: Vec<String>,
}

/// The addresses of a record, as character sequences.
pub open spec fn spec_pools(r: TxRecord) -> Seq<Seq<char>> {
    r.pools@.map_values(|s: String| s@)
}

/// `a` is among the addresses of `pools`.
pub open spec fn addrs_contain(pools: Seq<String>, a: Seq<char>) -> bool {
    exists|i: int| 0 <= i < pools.len() && (#[trigger] pools[i])@ == a
}

impl Default for TxRecord {
    fn default() -> (r: TxRecord)
        ensures
            r.pools@.len() == 0,
    {
        TxRecord { pools: Vec::new() }
    }
}

/// One ledger row: a transaction in one confirmation tier and the pools it
/// touched.
#[derive(Clone, Debug)]
pub struct TxEntry {
    pub txid: Txid,
    pub confirmed: bool,
    pub record: TxRecord,
}

/// The predicate picking rows keyed `(txid, confirmed)`.
pub open spec fn keyed(txid: Txid, confirmed: bool) -> spec_fn(TxEntry) -> bool {
    |e: TxEntry| e.txid == txid && e.confirmed == confirmed
}

/// The index of the first row of `s` keyed `(txid, confirmed)`, if any.
pub open spec fn seq_find(s: Seq<TxEntry>, txid: Txid, confirmed: bool) -> Option<int> {
    find_first(s, keyed(txid, confirmed))
}

/// The record of the first row of `s` keyed `(txid, confirmed)`, if any.
pub open spec fn seq_get(s: Seq<TxEntry>, txid: Txid, confirmed: bool) -> Option<TxRecord> {
    match seq_find(s, txid, confirmed) {
        Some(i) => Some(s[i].record),
        None => None,
    }
}

/// Some row of `s` is keyed `(txid, confirmed)`.
pub open spec fn seq_contains(s: Seq<TxEntry>, txid: Txid, confirmed: bool) -> bool {
    exists|i: int|
        0 <= i < s.len() && (#[trigger] s[i]).txid == txid && s[i].confirmed == confirmed
}

/// Keys of `s` are unique.
pub open spec fn seq_wf(s: Seq<TxEntry>) -> bool {
    forall|i: int, j: int|
        0 <= i < j < s.len() ==> ((#[trigger] s[i]).txid != (#[trigger] s[j]).txid
            || s[i].confirmed != s[j].confirmed)
}

/// The addresses of `pools` are pairwise distinct: a record is a set kept in
/// insertion order.
pub open spec fn pools_unique(pools: Seq<String>) -> bool {
    forall|a: int, b: int| 0 <= a < b < pools.len() ==> (#[trigger] pools[a])@ != (
    #[trigger] pools[b])@
}

/// Every record of `s` lists each address at most once.
pub open spec fn recs_unique(s: Seq<TxEntry>) -> bool {
    forall|i: int| 0 <= i < s.len() ==> pools_unique((#[trigger] s[i]).record.pools@)
}

/// Removing a row keeps every remaining record duplicate-free.
pub proof fn lemma_recs_unique_remove(s: Seq<TxEntry>, i: int)
    requires
        recs_unique(s),
        0 <= i < s.len(),
    ensures
        recs_unique(s.remove(i)),
{
    let post = s.remove(i);
    assert forall|p: int| 0 <= p < post.len() implies pools_unique(
        (#[trigger] post[p]).record.pools@,
    ) by {
        assert(post[p] == s[if p < i {
            p
        } else {
            p + 1
        }]);
    }
}

/// Inserting a duplicate-free row keeps every record duplicate-free.
pub proof fn lemma_recs_unique_insert(s: Seq<TxEntry>, i: int, e: TxEntry)
    requires
        recs_unique(s),
        0 <= i <= s.len(),
        pools_unique(e.record.pools@),
    ensures
        recs_unique(s.insert(i, e)),
{
    let post = s.insert(i, e);
    assert forall|p: int| 0 <= p < post.len() implies pools_unique(
        (#[trigger] post[p]).record.pools@,
    ) by {
        if p != i {
            assert(post[p] == s[if p < i {
                p
            } else {
                p - 1
            }]);
        } else {
            assert(post[p] == e);
        }
    }
}

/// `seq_find` finds the unique row under a key: `None` exactly when no row
/// carries it.
pub proof fn lemma_seq_find(s: Seq<TxEntry>, txid: Txid, confirmed: bool)
    ensures
        match seq_find(s, txid, confirmed) {
            None => !seq_contains(s, txid, confirmed),
            Some(i) => 0 <= i < s.len() && s[i].txid == txid && s[i].confirmed == confirmed && (
            forall|j: int|
                0 <= j < i ==> ((#[trigger] s[j]).txid != txid || s[j].confirmed != confirmed)),
        },
{
    lemma_find_first(s, keyed(txid, confirmed));
    assert forall|j: int| 0 <= j < s.len() implies (keyed(txid, confirmed)(#[trigger] s[j]) == (
    s[j].txid == txid && s[j].confirmed == confirmed)) by {}
}

/// Removing the row at `i` deletes exactly its key from the ledger view.
pub proof fn lemma_seq_get_remove(s: Seq<TxEntry>, i: int)
    requires
        seq_wf(s),
        0 <= i < s.len(),
    ensures
        seq_wf(s.remove(i)),
        seq_get(s.remove(i), s[i].txid, s[i].confirmed) is None,
        forall|t: Txid, c: bool|
            t != s[i].txid || c != s[i].confirmed ==> #[trigger] seq_get(s.remove(i), t, c)
                == seq_get(s, t, c),
{
    let post = s.remove(i);
    assert(forall|p: int|
        0 <= p < post.len() ==> #[trigger] post[p] == s[if p < i {
            p
        } else {
            p + 1
        }]);
    assert forall|t: Txid, c: bool|
        t != s[i].txid || c != s[i].confirmed implies #[trigger] seq_get(s.remove(i), t, c)
        == seq_get(s, t, c) by {
        lemma_seq_find(s, t, c);
        lemma_seq_find(post, t, c);
        match seq_find(s, t, c) {
            None => {
                match seq_find(post, t, c) {
                    Some(k) => {
                        assert(post[k] == s[if k < i {
                            k
                        } else {
                            k + 1
                        }]);
                    },
                    None => {},
                }
            },
            Some(k) => {
                assert(k != i);
                let k2 = if k < i {
                    k
                } else {
                    k - 1
                };
                assert(post[k2] == s[k]);
                match seq_find(post, t, c) {
                    None => {
                        assert(post[k2].txid == t && post[k2].confirmed == c);
                        assert(false);
                    },
                    Some(m) => {
                        let m0 = if m < i {
                            m
                        } else {
                            m + 1
                        };
                        assert(post[m] == s[m0]);
                        assert(m0 == k);
                    },
                }
            },
        }
    }
    match seq_find(post, s[i].txid, s[i].confirmed) {
        Some(k) => {
            lemma_seq_find(post, s[i].txid, s[i].confirmed);
            let k0 = if k < i {
                k
            } else {
                k + 1
            };
            assert(post[k] == s[k0]);
            assert(false);
        },
        None => {},
    }
}

/// Inserting a row with a fresh key adds exactly that key to the ledger view.
pub proof fn lemma_seq_get_insert(s: Seq<TxEntry>, i: int, e: TxEntry)
    requires
        seq_wf(s),
        0 <= i <= s.len(),
        !seq_contains(s, e.txid, e.confirmed),
    ensures
        seq_wf(s.insert(i, e)),
        seq_get(s.insert(i, e), e.txid, e.confirmed) == Some(e.record),
        forall|t: Txid, c: bool|
            t != e.txid || c != e.confirmed ==> #[trigger] seq_get(s.insert(i, e), t, c)
                == seq_get(s, t, c),
{
    let post = s.insert(i, e);
    assert(post[i] == e);
    assert(forall|p: int|
        0 <= p < post.len() && p != i ==> #[trigger] post[p] == s[if p < i {
            p
        } else {
            p - 1
        }]);
    assert forall|p: int, q: int| 0 <= p < q < post.len() implies ((#[trigger] post[p]).txid != (
    #[trigger] post[q]).txid || post[p].confirmed != post[q].confirmed) by {
        if p != i && q != i {
            assert(post[p] == s[if p < i { p } else { p - 1 }]);
            assert(post[q] == s[if q < i { q } else { q - 1 }]);
        } else if p == i {
            assert(post[q] == s[q - 1]);
        } else {
            assert(post[p] == s[p]);
        }
    }
    lemma_seq_find(post, e.txid, e.confirmed);
    match seq_find(post, e.txid, e.confirmed) {
        None => {
            assert(false);
        },
        Some(k) => {
            if k != i {
                assert(post[k] == s[if k < i { k } else { k - 1 }]);
                assert(false);
            }
        },
    }
    assert forall|t: Txid, c: bool|
        t != e.txid || c != e.confirmed implies #[trigger] seq_get(s.insert(i, e), t, c)
        == seq_get(s, t, c) by {
        lemma_seq_find(s, t, c);
        lemma_seq_find(post, t, c);
        match seq_find(s, t, c) {
            None => {
                match seq_find(post, t, c) {
                    Some(k) => {
                        assert(k != i);
                        assert(post[k] == s[if k < i {
                            k
                        } else {
                            k - 1
                        }]);
                    },
                    None => {},
                }
            },
            Some(k) => {
                let k2 = if k < i { k } else { k + 1 };
                assert(post[k2] == s[k]);
                match seq_find(post, t, c) {
                    None => {
                        assert(post[k2].txid == t && post[k2].confirmed == c);
                        assert(false);
                    },
                    Some(m) => {
                        assert(m != i);
                        let m0 = if m < i { m } else { m - 1 };
                        assert(post[m] == s[m0]);
                        assert(m0 == k);
                    },
                }
            },
        }
    }
}

/// The transaction ledger: rows keyed by `(txid, confirmed)`.
/// The field is public so a host shell can persist it; the service functions
/// preserve `wf`.
pub struct TxLedger {
    pub entries: Vec<TxEntry>,
}

impl TxLedger {
    /// The index of the row keyed `(txid, confirmed)`, if any.
    pub open spec fn spec_find(self, txid: Txid, confirmed: bool) -> Option<int> {
        seq_find(self.entries@, txid, confirmed)
    }

    /// The record stored under `(txid, confirmed)`, if any.
    pub open spec fn spec_get(self, txid: Txid, confirmed: bool) -> Option<TxRecord> {
        seq_get(self.entries@, txid, confirmed)
    }

    /// A row is keyed `(txid, confirmed)`.
    pub open spec fn spec_contains(self, txid: Txid, confirmed: bool) -> bool {
        seq_contains(self.entries@, txid, confirmed)
    }

    /// Keys are unique, and every record lists each address at most once.
    pub open spec fn wf(self) -> bool {
        seq_wf(self.entries@) && recs_unique(self.entries@)
    }

    /// `spec_find` finds the unique row under a key: `None` exactly when no
    /// row carries it.
    pub proof fn lemma_spec_find(self, txid: Txid, confirmed: bool)
        ensures
            match self.spec_find(txid, confirmed) {
                None => !self.spec_contains(txid, confirmed),
                Some(i) => 0 <= i < self.entries@.len() && self.entries@[i].txid == txid
                    && self.entries@[i].confirmed == confirmed && (forall|j: int|
                    0 <= j < i ==> ((#[trigger] self.entries@[j]).txid != txid
                        || self.entries@[j].confirmed != confirmed)),
            },
    {
        lemma_seq_find(self.entries@, txid, confirmed);
    }

    /// An empty ledger.
    pub fn new() -> (r: TxLedger)
        ensures
            r.entries@.len() == 0,
            r.wf(),
    {
        TxLedger { entries: Vec::new() }
    }

    /// The index of the row keyed `(txid, confirmed)`, if any.
    pub fn find_index(&self, txid: Txid, confirmed: bool) -> (r: Option<usize>)
        ensures
            match self.spec_find(txid, confirmed) {
                None => r is None,
                Some(i) => r matches Some(u) && u as int == i,
            },
    {
        proof {
            self.lemma_spec_find(txid, confirmed);
        }
        let n = self.entries.len();
        let mut i: usize = 0;
        while i < n
            invariant
                n == self.entries@.len(),
                i <= n,
                forall|j: int|
                    0 <= j < i ==> ((#[trigger] self.entries@[j]).txid != txid
                        || self.entries@[j].confirmed != confirmed),
            decreases n - i,
        {
            if self.entries[i].txid == txid && self.entries[i].confirmed == confirmed {
                return Some(i);
            }
            i += 1;
        }
        None
    }

    /// The record stored under `(txid, confirmed)`, if any.
    pub fn get<'a>(&'a self, txid: Txid, confirmed: bool) -> (r: Option<&'a TxRecord>)
        ensures
            match self.spec_get(txid, confirmed) {
                None => r is None,
                Some(rec) => r matches Some(p) && *p == rec,
            },
    {
        proof {
            self.lemma_spec_find(txid, confirmed);
        }
        match self.find_index(txid, confirmed) {
            Some(i) => Some(&self.entries[i].record),
            None => None,
        }
    }

    /// The record for `txid` in either tier, preferring the confirmed one.
    pub fn get_any<'a>(&'a self, txid: Txid) -> (r: Option<&'a TxRecord>)
        ensures
            match self.spec_get_any(txid) {
                None => r is None,
                Some(rec) => r matches Some(p) && *p == rec,
            },
    {
        proof {
            self.lemma_spec_find(txid, true);
            self.lemma_spec_find(txid, false);
        }
        match self.find_index(txid, true) {
            Some(i) => Some(&self.entries[i].record),
            None => match self.find_index(txid, false) {
                Some(i) => Some(&self.entries[i].record),
                None => None,
            },
        }
    }

    /// The record for `txid` in either tier, preferring the confirmed one.
    pub open spec fn spec_get_any(self, txid: Txid) -> Option<TxRecord> {
        if self.spec_get(txid, true) is Some {
            self.spec_get(txid, true)
        } else {
            self.spec_get(txid, false)
        }
    }

    /// Notes that `txid` touched `pool_addr` while unconfirmed: upserts the
    /// `(txid, false)` row and adds the address to it if it is not there yet.
    pub fn record_unconfirmed(&mut self, txid: Txid, pool_addr: String)
        requires
            old(self).wf(),
        ensures
            final(self).wf(),
            forall|t: Txid, c: bool|
                t != txid || c ==> #[trigger] final(self).spec_get(t, c) == old(self).spec_get(
                    t,
                    c,
                ),
            final(self).spec_get(txid, true) == old(self).spec_get(txid, true),
            match old(self).spec_get(txid, false) {
                None => final(self).spec_get(txid, false) matches Some(rec) && rec.pools@.len()
                    == 1 && rec.pools@[0]@ == pool_addr@,
                Some(r0) => final(self).spec_get(txid, false) matches Some(rec) && (
                if addrs_contain(r0.pools@, pool_addr@) {
                    rec.pools@ == r0.pools@
                } else {
                    rec.pools@ == r0.pools@.push(pool_addr)
                }),
            },
    {
        proof {
            self.lemma_spec_find(txid, false);
        }
        match self.find_index(txid, false) {
            Some(i) => {
                let ghost pre = self.entries@;
                let mut e = self.entries.remove(i);
                proof {
                    lemma_seq_get_remove(pre, i as int);
                    lemma_recs_unique_remove(pre, i as int);
                    lemma_seq_find(self.entries@, txid, false);
                }
                let ghost kept = e.record.pools@;
                if !pools_contain(&e.record.pools, &pool_addr) {
                    e.record.pools.push(pool_addr);
                    proof {
                        assert forall|a: int, b: int|
                            0 <= a < b < e.record.pools@.len() implies (
                        #[trigger] e.record.pools@[a])@ != (#[trigger] e.record.pools@[b])@ by {
                            if b < kept.len() {
                                assert(e.record.pools@[a] == kept[a]);
                                assert(e.record.pools@[b] == kept[b]);
                            } else {
                                assert(e.record.pools@[a] == kept[a]);
                            }
                        }
                    }
                }
                proof {
                    lemma_seq_get_insert(self.entries@, i as int, e);
                    lemma_recs_unique_insert(self.entries@, i as int, e);
                }
                self.entries.insert(i, e);
            },
            None => {
                let mut pools: Vec<String> = Vec::new();
                pools.push(pool_addr);
                let e = TxEntry { txid, confirmed: false, record: TxRecord { pools } };
                proof {
                    lemma_seq_get_insert(self.entries@, self.entries@.len() as int, e);
                    lemma_recs_unique_insert(self.entries@, self.entries@.len() as int, e);
                }
                let n = self.entries.len();
                self.entries.insert(n, e);
            },
        }
    }

    /// Moves the `(txid, false)` row, if any, to `(txid, true)`; a no-op
    /// otherwise. An older `(txid, true)` row is overwritten.
    pub fn promote(&mut self, txid: Txid)
        requires
            old(self).wf(),
        ensures
            final(self).wf(),
            forall|t: Txid, c: bool|
                t != txid ==> #[trigger] final(self).spec_get(t, c) == old(self).spec_get(t, c),
            final(self).spec_get(txid, false) == (if old(self).spec_get(txid, false) is Some {
                Option::<TxRecord>::None
            } else {
                old(self).spec_get(txid, false)
            }),
            final(self).spec_get(txid, true) == (if old(self).spec_get(txid, false) is Some {
                old(self).spec_get(txid, false)
            } else {
                old(self).spec_get(txid, true)
            }),
    {
        proof {
            self.lemma_spec_find(txid, false);
        }
        match self.find_index(txid, false) {
            None => {},
            Some(i) => {
                let ghost pre = self.entries@;
                let mut e = self.entries.remove(i);
                proof {
                    lemma_seq_get_remove(pre, i as int);
                    lemma_recs_unique_remove(pre, i as int);
                    lemma_seq_find(self.entries@, txid, true);
                }
                e.confirmed = true;
                match self.find_index(txid, true) {
                    Some(k) => {
                        let ghost mid = self.entries@;
                        self.entries.remove(k);
                        proof {
                            lemma_seq_get_remove(mid, k as int);
                            lemma_recs_unique_remove(mid, k as int);
                            lemma_seq_find(self.entries@, txid, true);
                        }
                    },
                    None => {},
                }
                proof {
                    lemma_seq_get_insert(self.entries@, self.entries@.len() as int, e);
                    lemma_recs_unique_insert(self.entries@, self.entries@.len() as int, e);
                }
                let n = self.entries.len();
                self.entries.insert(n, e);
            },
        }
    }

    /// Removes the row keyed `(txid, confirmed)`, if any.
    pub fn remove_row(&mut self, txid: Txid, confirmed: bool)
        requires
            old(self).wf(),
        ensures
            final(self).wf(),
            final(self).spec_get(txid, confirmed) is None,
            forall|t: Txid, c: bool|
                t != txid || c != confirmed ==> #[trigger] final(self).spec_get(t, c) == old(
                    self,
                ).spec_get(t, c),
    {
        proof {
            self.lemma_spec_find(txid, confirmed);
        }
        match self.find_index(txid, confirmed) {
            Some(i) => {
                let ghost pre = self.entries@;
                proof {
                    lemma_seq_get_remove(pre, i as int);
                    lemma_recs_unique_remove(pre, i as int);
                }
                self.entries.remove(i);
            },
            None => {},
        }
    }

    /// Removes both the unconfirmed and the confirmed row of `txid`.
    pub fn drop_tx(&mut self, txid: Txid)
        requires
            old(self).wf(),
        ensures
            final(self).wf(),
            forall|t: Txid, c: bool|
                t != txid ==> #[trigger] final(self).spec_get(t, c) == old(self).spec_get(t, c),
            final(self).spec_get(txid, false) is None,
            final(self).spec_get(txid, true) is None,
    {
        proof {
            self.lemma_spec_find(txid, false);
        }
        match self.find_index(txid, false) {
            Some(i) => {
                let ghost pre = self.entries@;
                proof {
                    lemma_seq_get_remove(pre, i as int);
                    lemma_recs_unique_remove(pre, i as int);
                }
                self.entries.remove(i);
            },
            None => {},
        }
        proof {
            self.lemma_spec_find(txid, true);
        }
        match self.find_index(txid, true) {
            Some(i) => {
                let ghost pre = self.entries@;
                proof {
                    lemma_seq_get_remove(pre, i as int);
                    lemma_recs_unique_remove(pre, i as int);
                }
                self.entries.remove(i);
            },
            None => {},
        }
    }
}

/// Whether `addr` is among `pools`.
pub fn pools_contain(pools: &Vec<String>, addr: &String) -> (r: bool)
    ensures
        r == addrs_contain(pools@, addr@),
{
    let n = pools.len();
    let mut i: usize = 0;
    while i < n
        invariant
            n == pools@.len(),
            i <= n,
            forall|j: int| 0 <= j < i ==> (#[trigger] pools@[j])@ != addr@,
        decreases n - i,
    {
        if pools[i].eq(addr) {
            return true;
        }
        i += 1;
    }
    false
}

} // verus!
