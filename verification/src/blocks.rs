use vstd::prelude::*;

use crate::coin::Txid;
use crate::search::{find_first, lemma_find_first};

verus! {

/// What the orchestrator reports of one new block.
#[derive(Clone, Debug)]
pub struct NewBlockInfo {
    pub block_height: u32,
    pub block_hash: String,
    pub block_timestamp: u64,
    pub confirmed_txids: Vec<Txid>,
}

/// The predicate picking blocks at `height`.
pub open spec fn at_height(height: u32) -> spec_fn(NewBlockInfo) -> bool {
    |b: NewBlockInfo| b.block_height == height
}

/// The index of the first block of `s` at `height`, if any.
pub open spec fn bfind(s: Seq<NewBlockInfo>, height: u32) -> Option<int> {
    find_first(s, at_height(height))
}

/// The first block of `s` at `height`, if any.
pub open spec fn bget(s: Seq<NewBlockInfo>, height: u32) -> Option<NewBlockInfo> {
    match bfind(s, height) {
        Some(i) => Some(s[i]),
        None => None,
    }
}

/// Some block of `s` is at `height`.
pub open spec fn bcontains(s: Seq<NewBlockInfo>, height: u32) -> bool {
    exists|i: int| 0 <= i < s.len() && (#[trigger] s[i]).block_height == height
}

/// Heights are strictly ascending.
pub open spec fn bsorted(s: Seq<NewBlockInfo>) -> bool {
    forall|i: int, j: int|
        0 <= i < j < s.len() ==> (#[trigger] s[i]).block_height < (#[trigger] s[j]).block_height
}

/// `bfind` finds the unique block at a height: `None` exactly when no block
/// carries it.
pub proof fn lemma_bfind(s: Seq<NewBlockInfo>, height: u32)
    ensures
        match bfind(s, height) {
            None => !bcontains(s, height),
            Some(i) => 0 <= i < s.len() && s[i].block_height == height && (forall|j: int|
                0 <= j < i ==> (#[trigger] s[j]).block_height != height),
        },
{
    lemma_find_first(s, at_height(height));
    assert forall|j: int| 0 <= j < s.len() implies (at_height(height)(#[trigger] s[j]) == (
    s[j].block_height == height)) by {}
}

/// Removing the block at `i` deletes exactly its height from the ledger view.
pub proof fn lemma_bget_remove(s: Seq<NewBlockInfo>, i: int)
    requires
        bsorted(s),
        0 <= i < s.len(),
    ensures
        bsorted(s.remove(i)),
        bget(s.remove(i), s[i].block_height) is None,
        forall|h: u32|
            h != s[i].block_height ==> #[trigger] bget(s.remove(i), h) == bget(s, h),
{
    let post = s.remove(i);
    assert(forall|p: int|
        0 <= p < post.len() ==> #[trigger] post[p] == s[if p < i {
            p
        } else {
            p + 1
        }]);
    assert forall|h: u32| h != s[i].block_height implies #[trigger] bget(s.remove(i), h) == bget(
        s,
        h,
    ) by {
        lemma_bfind(s, h);
        lemma_bfind(post, h);
        match bfind(s, h) {
            None => {
                match bfind(post, h) {
                    Some(k) => {
                        assert(post[k] == s[if k < i {
                            k
                        } else {
                            k + 1
                        }]);
                    },
                    None => {},
                }
            },
            Some(k) => {
                assert(k != i);
                let k2 = if k < i {
                    k
                } else {
                    k - 1
                };
                assert(post[k2] == s[k]);
                match bfind(post, h) {
                    None => {
                        assert(post[k2].block_height == h);
                        assert(false);
                    },
                    Some(m) => {
                        let m0 = if m < i {
                            m
                        } else {
                            m + 1
                        };
                        assert(post[m] == s[m0]);
                        assert(m0 == k);
                    },
                }
            },
        }
    }
    match bfind(post, s[i].block_height) {
        Some(k) => {
            lemma_bfind(post, s[i].block_height);
            let k0 = if k < i {
                k
            } else {
                k + 1
            };
            assert(post[k] == s[k0]);
            assert(false);
        },
        None => {},
    }
}

/// Inserting a block with a fresh height at a position that keeps heights
/// ascending adds exactly that height to the ledger view.
pub proof fn lemma_bget_insert(s: Seq<NewBlockInfo>, i: int, b: NewBlockInfo)
    requires
        bsorted(s),
        0 <= i <= s.len(),
        !bcontains(s, b.block_height),
        forall|j: int| 0 <= j < i ==> (#[trigger] s[j]).block_height < b.block_height,
        forall|j: int| i <= j < s.len() ==> (#[trigger] s[j]).block_height > b.block_height,
    ensures
        bsorted(s.insert(i, b)),
        bget(s.insert(i, b), b.block_height) == Some(b),
        forall|h: u32| h != b.block_height ==> #[trigger] bget(s.insert(i, b), h) == bget(s, h),
{
    let post = s.insert(i, b);
    assert(post[i] == b);
    assert(forall|p: int|
        0 <= p < post.len() && p != i ==> #[trigger] post[p] == s[if p < i {
            p
        } else {
            p - 1
        }]);
    assert forall|p: int, q: int| 0 <= p < q < post.len() implies (#[trigger] post[p]).block_height
        < (#[trigger] post[q]).block_height by {
        if p != i && q != i {
            assert(post[p] == s[if p < i {
                p
            } else {
                p - 1
            }]);
            assert(post[q] == s[if q < i {
                q
            } else {
                q - 1
            }]);
        } else if p == i {
            assert(post[q] == s[q - 1]);
        } else {
            assert(post[p] == s[p]);
        }
    }
    lemma_bfind(post, b.block_height);
    match bfind(post, b.block_height) {
        None => {
            assert(false);
        },
        Some(k) => {
            if k != i {
                assert(post[k] == s[if k < i {
                    k
                } else {
                    k - 1
                }]);
                assert(false);
            }
        },
    }
    assert forall|h: u32| h != b.block_height implies #[trigger] bget(s.insert(i, b), h) == bget(
        s,
        h,
    ) by {
        lemma_bfind(s, h);
        lemma_bfind(post, h);
        match bfind(s, h) {
            None => {
                match bfind(post, h) {
                    Some(k) => {
                        assert(k != i);
                        assert(post[k] == s[if k < i {
                            k
                        } else {
                            k - 1
                        }]);
                    },
                    None => {},
                }
            },
            Some(k) => {
                let k2 = if k < i {
                    k
                } else {
                    k + 1
                };
                assert(post[k2] == s[k]);
                match bfind(post, h) {
                    None => {
                        assert(post[k2].block_height == h);
                        assert(false);
                    },
                    Some(m) => {
                        assert(m != i);
                        let m0 = if m < i {
                            m
                        } else {
                            m - 1
                        };
                        assert(post[m] == s[m0]);
                        assert(m0 == k);
                    },
                }
            },
        }
    }
}

/// `bs` with `b` stored at its height: inserted before the first strictly
/// greater height, replacing an equal one.
pub open spec fn binsert(bs: Seq<NewBlockInfo>, b: NewBlockInfo) -> Seq<NewBlockInfo>
    decreases bs.len(),
{
    if bs.len() == 0 {
        seq![b]
    } else if bs[0].block_height < b.block_height {
        seq![bs[0]] + binsert(bs.drop_first(), b)
    } else if bs[0].block_height == b.block_height {
        seq![b] + bs.drop_first()
    } else {
        seq![b] + bs
    }
}

/// `binsert` is a positional insert or replacement at the first index not
/// strictly below the new height.
pub proof fn lemma_binsert_at(bs: Seq<NewBlockInfo>, b: NewBlockInfo, pos: int)
    requires
        0 <= pos <= bs.len(),
        forall|j: int| 0 <= j < pos ==> (#[trigger] bs[j]).block_height < b.block_height,
        pos == bs.len() || bs[pos].block_height >= b.block_height,
    ensures
        pos < bs.len() && bs[pos].block_height == b.block_height ==> binsert(bs, b) == bs.update(
            pos,
            b,
        ),
        pos == bs.len() || bs[pos].block_height > b.block_height ==> binsert(bs, b) == bs.insert(
            pos,
            b,
        ),
    decreases pos,
{
    if pos == 0 {
        if bs.len() == 0 {
            assert(binsert(bs, b) =~= bs.insert(0, b));
        } else if bs[0].block_height == b.block_height {
            assert(binsert(bs, b) =~= bs.update(0, b));
        } else {
            assert(binsert(bs, b) =~= bs.insert(0, b));
        }
    } else {
        lemma_binsert_at(bs.drop_first(), b, pos - 1);
        if pos < bs.len() && bs[pos].block_height == b.block_height {
            assert(bs.drop_first()[pos - 1] == bs[pos]);
            assert(binsert(bs, b) =~= bs.update(pos, b));
        } else {
            assert(binsert(bs, b) =~= bs.insert(pos, b));
        }
    }
}

/// The canonical chain as observed so far: blocks by strictly ascending
/// height. The field is public so a host shell can persist it; the service
/// functions preserve `wf`.
pub struct BlockLedger {
    pub blocks: Vec<NewBlockInfo>,
}

impl BlockLedger {
    /// The block stored at `height`, if any.
    pub open spec fn spec_get(self, height: u32) -> Option<NewBlockInfo> {
        bget(self.blocks@, height)
    }

    /// Heights are strictly ascending.
    pub open spec fn wf(self) -> bool {
        bsorted(self.blocks@)
    }

    /// An empty ledger.
    pub fn new() -> (r: BlockLedger)
        ensures
            r.blocks@.len() == 0,
            r.wf(),
    {
        BlockLedger { blocks: Vec::new() }
    }

    /// Stores `block` at its height, replacing what an earlier report left
    /// there.
    pub fn insert(&mut self, block: NewBlockInfo)
        requires
            old(self).wf(),
        ensures
            final(self).wf(),
            final(self).blocks@ == binsert(old(self).blocks@, block),
            final(self).spec_get(block.block_height) == Some(block),
            forall|h: u32|
                h != block.block_height ==> #[trigger] final(self).spec_get(h) == old(
                    self,
                ).spec_get(h),
    {
        let h = block.block_height;
        let n = self.blocks.len();
        let mut pos: usize = 0;
        while pos < n && self.blocks[pos].block_height < h
            invariant
                n == self.blocks@.len(),
                pos <= n,
                forall|j: int| 0 <= j < pos ==> (#[trigger] self.blocks@[j]).block_height < h,
            decreases n - pos,
        {
            pos += 1;
        }
        if pos < n && self.blocks[pos].block_height == h {
            let ghost pre = self.blocks@;
            proof {
                lemma_bget_remove(pre, pos as int);
                lemma_binsert_at(pre, block, pos as int);
            }
            self.blocks.remove(pos);
            proof {
                lemma_bfind(self.blocks@, h);
                assert(forall|j: int| 0 <= j < pos ==> #[trigger] self.blocks@[j] == pre[j]);
                assert forall|j: int|
                    pos <= j < self.blocks@.len() implies (
                #[trigger] self.blocks@[j]).block_height > h by {
                    assert(self.blocks@[j] == pre[j + 1]);
                }
                lemma_bget_insert(self.blocks@, pos as int, block);
            }
            self.blocks.insert(pos, block);
            proof {
                assert(self.blocks@ =~= pre.update(pos as int, block));
            }
        } else {
            proof {
                lemma_bfind(self.blocks@, h);
                assert forall|j: int|
                    pos <= j < self.blocks@.len() implies (
                #[trigger] self.blocks@[j]).block_height > h by {
                    if pos < self.blocks@.len() {
                        if j > pos {
                            assert(self.blocks@[pos as int].block_height
                                < self.blocks@[j].block_height);
                        }
                    }
                }
                lemma_bget_insert(self.blocks@, pos as int, block);
                lemma_binsert_at(self.blocks@, block, pos as int);
            }
            self.blocks.insert(pos, block);
        }
    }
}

} // verus!
