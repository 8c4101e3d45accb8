use vstd::prelude::*;

verus! {

/// The set of pool addresses with an execution in flight.
pub struct ExecutingSet {
    addrs: Vec<String>,
}

impl ExecutingSet {
    /// The address `a` is marked as executing.
    pub closed spec fn spec_contains(self, a: Seq<char>) -> bool {
        exists|i: int| 0 <= i < self.addrs@.len() && (#[trigger] self.addrs@[i])@ == a
    }

    /// No address is marked twice.
    pub closed spec fn wf(self) -> bool {
        forall|i: int, j: int|
            0 <= i < j < self.addrs@.len() ==> (#[trigger] self.addrs@[i])@ != (
            #[trigger] self.addrs@[j])@
    }

    /// An empty set: nothing is executing.
    pub fn new() -> (r: ExecutingSet)
        ensures
            r.wf(),
            forall|a: Seq<char>| !r.spec_contains(a),
    {
        ExecutingSet { addrs: Vec::new() }
    }

    /// Whether `addr` is marked as executing.
    fn contains(&self, addr: &String) -> (r: bool)
        ensures
            r == self.spec_contains(addr@),
    {
        let n = self.addrs.len();
        let mut i: usize = 0;
        while i < n
            invariant
                n == self.addrs@.len(),
                i <= n,
                forall|j: int| 0 <= j < i ==> (#[trigger] self.addrs@[j])@ != addr@,
            decreases n - i,
        {
            if self.addrs[i].eq(addr) {
                return true;
            }
            i += 1;
        }
        false
    }
}

/// Holds the executing mark of one pool address for the span of one
/// `execute_tx`; release it on every exit path.
#[must_use]
pub struct ExecuteTxGuard {
    addr: String,
}

impl ExecuteTxGuard {
    /// The address this guard holds.
    pub closed spec fn spec_addr(self) -> Seq<char> {
        self.addr@
    }

    /// Acquires the executing mark for `token_address`: fails, changing
    /// nothing, when that pool is already executing.
    pub fn new(executing: &mut ExecutingSet, token_address: String) -> (r: Option<ExecuteTxGuard>)
        requires
            old(executing).wf(),
        ensures
            final(executing).wf(),
            old(executing).spec_contains(token_address@) ==> r is None,
            !old(executing).spec_contains(token_address@) ==> (r matches Some(g)
                && g.spec_addr() == token_address@),
            r is None ==> forall|a: Seq<char>|
                final(executing).spec_contains(a) == old(executing).spec_contains(a),
            r is Some ==> final(executing).spec_contains(token_address@) && (forall|a: Seq<char>|
                a != token_address@ ==> final(executing).spec_contains(a) == old(
                    executing,
                ).spec_contains(a)),
    {
        if executing.contains(&token_address) {
            return None;
        }
        let ghost pre = executing.addrs@;
        let ghost tv = token_address@;
        let guard = ExecuteTxGuard { addr: token_address.clone() };
        executing.addrs.push(token_address);
        proof {
            let post = executing.addrs@;
            assert forall|i: int, j: int| 0 <= i < j < post.len() implies (#[trigger] post[i])@
                != (#[trigger] post[j])@ by {
                if j < pre.len() {
                    assert(post[i] == pre[i]);
                    assert(post[j] == pre[j]);
                } else {
                    assert(post[i] == pre[i]);
                    assert(post[j]@ == tv);
                }
            }
            assert forall|a: Seq<char>|
                a != tv implies executing.spec_contains(a) == old(executing).spec_contains(a) by {
                if old(executing).spec_contains(a) {
                    let w = choose|i: int| 0 <= i < pre.len() && (#[trigger] pre[i])@ == a;
                    assert(post[w] == pre[w]);
                }
                if executing.spec_contains(a) {
                    let w = choose|i: int| 0 <= i < post.len() && (#[trigger] post[i])@ == a;
                    assert(w < pre.len());
                    assert(pre[w] == post[w]);
                }
            }
            assert(post[post.len() - 1]@ == tv);
        }
        Some(guard)
    }

    /// Releases the executing mark this guard holds.
    pub fn release(self, executing: &mut ExecutingSet)
        requires
            old(executing).wf(),
        ensures
            final(executing).wf(),
            !final(executing).spec_contains(self.spec_addr()),
            forall|a: Seq<char>|
                a != self.spec_addr() ==> final(executing).spec_contains(a) == old(
                    executing,
                ).spec_contains(a),
    {
        let n = executing.addrs.len();
        let mut i: usize = 0;
        while i < n
            invariant
                n == executing.addrs@.len(),
                i <= n,
                executing.addrs@ == old(executing).addrs@,
                forall|j: int| 0 <= j < i ==> (#[trigger] executing.addrs@[j])@ != self.addr@,
            decreases n - i,
        {
            if executing.addrs[i].eq(&self.addr) {
                let ghost pre = executing.addrs@;
                executing.addrs.remove(i);
                proof {
                    let post = executing.addrs@;
                    assert(post == pre.remove(i as int));
                    assert forall|p: int, q: int| 0 <= p < q < post.len() implies (
                    #[trigger] post[p])@ != (#[trigger] post[q])@ by {
                        let p0 = if p < i { p } else { p + 1 };
                        let q0 = if q < i { q } else { q + 1 };
                        assert(post[p] == pre[p0]);
                        assert(post[q] == pre[q0]);
                    }
                    assert forall|p: int| 0 <= p < post.len() implies (#[trigger] post[p])@
                        != self.addr@ by {
                        let p0 = if p < i { p } else { p + 1 };
                        assert(post[p] == pre[p0]);
                        if p0 != i {
                            assert(pre[p0]@ != pre[i as int]@);
                        }
                    }
                    assert forall|a: Seq<char>|
                        a != self.spec_addr() implies executing.spec_contains(a) == old(
                        executing,
                    ).spec_contains(a) by {
                        if old(executing).spec_contains(a) {
                            let w = choose|k: int| 0 <= k < pre.len() && (#[trigger] pre[k])@ == a;
                            if w < i {
                                assert(post[w] == pre[w]);
                            } else {
                                assert(w != i);
                                assert(post[w - 1] == pre[w]);
                            }
                        }
                        if executing.spec_contains(a) {
                            let w = choose|k: int|
                                0 <= k < post.len() && (#[trigger] post[k])@ == a;
                            let w0 = if w < i { w } else { w + 1 };
                            assert(pre[w0] == post[w]);
                        }
                    }
                }
                return ;
            }
            i += 1;
        }
    }
}

} // verus!
