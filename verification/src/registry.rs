use vstd::prelude::*;

use crate::search::{find_first, lemma_find_first};
use crate::token_pool::CanvasToken;

verus! {

/// The keyed store of pools: each pool is found under its address.
/// The field is public so a host shell can persist it; the service functions
/// preserve `wf`.
pub struct PoolRegistry {
    pub pools: Vec<CanvasToken>,
}

/// The predicate picking pools registered under `addr`.
pub open spec fn has_addr(addr: Seq<char>) -> spec_fn(CanvasToken) -> bool {
    |p: CanvasToken| p.addr@ == addr
}

impl PoolRegistry {
    /// The index of the pool registered under `addr`, if any.
    pub open spec fn spec_find(self, addr: Seq<char>) -> Option<int> {
        find_first(self.pools@, has_addr(addr))
    }

    /// A pool is registered under `addr`.
    pub open spec fn spec_contains(self, addr: Seq<char>) -> bool {
        exists|i: int| 0 <= i < self.pools@.len() && (#[trigger] self.pools@[i]).addr@ == addr
    }

    /// Addresses are unique and every pool satisfies its own invariant.
    pub open spec fn wf(self) -> bool {
        &&& forall|i: int, j: int|
            0 <= i < j < self.pools@.len() ==> (#[trigger] self.pools@[i]).addr@ != (
            #[trigger] self.pools@[j]).addr@
        &&& forall|i: int| 0 <= i < self.pools@.len() ==> (#[trigger] self.pools@[i]).wf()
    }

    /// `spec_find` finds the unique index of the pool under `addr`: `None`
    /// exactly when no pool carries it.
    pub proof fn lemma_spec_find(self, addr: Seq<char>)
        ensures
            match self.spec_find(addr) {
                None => !self.spec_contains(addr),
                Some(i) => 0 <= i < self.pools@.len() && self.pools@[i].addr@ == addr && (forall|
                    j: int,
                |
                    0 <= j < i ==> (#[trigger] self.pools@[j]).addr@ != addr),
            },
    {
        lemma_find_first(self.pools@, has_addr(addr));
        assert forall|j: int| 0 <= j < self.pools@.len() implies (has_addr(addr)(
            #[trigger] self.pools@[j],
        ) == (self.pools@[j].addr@ == addr)) by {}
    }

    /// An empty registry.
    pub fn new() -> (r: PoolRegistry)
        ensures
            r.pools@.len() == 0,
            r.wf(),
    {
        PoolRegistry { pools: Vec::new() }
    }

    /// The index of the pool registered under `addr`, if any.
    pub fn find_index(&self, addr: &String) -> (r: Option<usize>)
        ensures
            match self.spec_find(addr@) {
                None => r is None,
                Some(i) => r matches Some(u) && u as int == i,
            },
    {
        proof {
            self.lemma_spec_find(addr@);
        }
        let n = self.pools.len();
        let mut i: usize = 0;
        while i < n
            invariant
                n == self.pools@.len(),
                i <= n,
                forall|j: int| 0 <= j < i ==> (#[trigger] self.pools@[j]).addr@ != addr@,
            decreases n - i,
        {
            if self.pools[i].addr.eq(addr) {
                return Some(i);
            }
            i += 1;
        }
        None
    }

    /// The pool registered under `addr`, if any.
    pub fn get<'a>(&'a self, addr: &String) -> (r: Option<&'a CanvasToken>)
        ensures
            r is Some <==> self.spec_find(addr@) is Some,
            match self.spec_find(addr@) {
                Some(i) => r matches Some(p) && *p == self.pools@[i],
                None => r is None,
            },
    {
        proof {
            self.lemma_spec_find(addr@);
        }
        match self.find_index(addr) {
            Some(i) => Some(&self.pools[i]),
            None => None,
        }
    }
}

/// The pool registered under `addr`, if any.
pub fn get_canvas_token<'a>(reg: &'a PoolRegistry, addr: &String) -> (r: Option<&'a CanvasToken>)
    ensures
        r is Some <==> reg.spec_find(addr@) is Some,
        match reg.spec_find(addr@) {
            Some(i) => r matches Some(p) && *p == reg.pools@[i],
            None => r is None,
        },
{
    reg.get(addr)
}

/// All registered pools, in registration order.
pub fn get_canvas_tokens<'a>(reg: &'a PoolRegistry) -> (r: &'a Vec<CanvasToken>)
    ensures
        r@ == reg.pools@,
{
    &reg.pools
}

} // verus!
