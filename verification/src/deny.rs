//! The deny store, as the core requires it to behave.
//!
//! A source address whose observed set can no longer match is excluded for
//! good by a deny record.  The store keeps at most one record per address,
//! and denying an address that is already denied is a success and a no-op,
//! never an error.  The durable store must honour the same contract: its
//! insert is an insert-if-absent.

use vstd::prelude::*;

use crate::net::IpNet;

verus! {

/// One deny record as the store keeps it: the denied address and the
/// store-assigned time it was added (seconds since the epoch).
#[derive(Clone, Copy, Debug, PartialEq, Eq, Structural)]
pub struct Denies {
    pub ip: IpNet,
    pub added_on: i64,
}

/// The set of deny records, one per denied address.
pub struct DenyStore {
    ips: Vec<IpNet>,
}

impl DenyStore {
    /// The records, in the order they were added.
    pub closed spec fn records(&self) -> Seq<IpNet> {
        self.ips@
    }

    /// The denied addresses.
    pub open spec fn denied(&self) -> Set<IpNet> {
        self.records().to_set()
    }

    /// No address has two records.
    pub open spec fn wf(&self) -> bool {
        forall|i: int, j: int|
            0 <= i < j < self.records().len() ==> self.records()[i] != self.records()[j]
    }

    /// An empty store.
    pub fn new() -> (r: DenyStore)
        ensures
            r.wf(),
            r.records() =~= Seq::<IpNet>::empty(),
    {
        DenyStore { ips: Vec::new() }
    }

    /// Is the address denied?
    pub fn contains(&self, ip: IpNet) -> (r: bool)
        ensures
            r == self.denied().contains(ip),
    {
        let mut i: usize = 0;
        while i < self.ips.len()
            invariant
                0 <= i <= self.ips@.len(),
                forall|j: int| 0 <= j < i ==> self.ips@[j] != ip,
            decreases self.ips@.len() - i,
        {
            if self.ips[i].hi == ip.hi && self.ips[i].lo == ip.lo && self.ips[i].prefix == ip.prefix
                && self.ips[i].v6 == ip.v6 {
                assert(self.ips@[i as int] == ip);
                assert(self.records().contains(ip));
                return true;
            }
            i += 1;
        }
        assert(!self.records().contains(ip));
        false
    }

    /// How many records the store holds.
    pub fn len(&self) -> (r: usize)
        ensures
            r == self.records().len(),
    {
        self.ips.len()
    }

    /// Deny an address.  A second denial of the same address changes nothing
    /// and is not an error.
    pub fn deny(&mut self, ip: IpNet)
        requires
            old(self).wf(),
        ensures
            final(self).wf(),
            final(self).denied() == old(self).denied().insert(ip),
            old(self).denied().contains(ip) ==> final(self).records() == old(self).records(),
            !old(self).denied().contains(ip) ==> final(self).records() == old(self).records().push(
                ip,
            ),
    {
        if self.contains(ip) {
            proof {
                assert(self.denied().insert(ip) =~= self.denied());
            }
        } else {
            let ghost before = self.ips@;
            self.ips.push(ip);
            proof {
                assert(self.ips@ == before.push(ip));
                assert forall|x: IpNet| self.ips@.to_set().contains(x) implies before.to_set().insert(
                    ip,
                ).contains(x) by {
                    let j = choose|j: int| 0 <= j < self.ips@.len() && self.ips@[j] == x;
                    if j < before.len() {
                        assert(before.contains(x));
                    }
                }
                assert forall|x: IpNet| before.to_set().insert(ip).contains(x) implies self.ips@.to_set().contains(
                    x,
                ) by {
                    if x == ip {
                        assert(self.ips@[before.len() as int] == ip);
                        assert(self.ips@.contains(x));
                    } else {
                        let j = choose|j: int| 0 <= j < before.len() && before[j] == x;
                        assert(self.ips@[j] == x);
                        assert(self.ips@.contains(x));
                    }
                }
                assert(self.ips@.to_set() =~= before.to_set().insert(ip));
            }
        }
    }
}

/// Denying an address a second time leaves the set of denied addresses
/// exactly as the first denial left it.
pub proof fn lemma_deny_idempotent(denied: Set<IpNet>, ip: IpNet)
    ensures
        denied.insert(ip).insert(ip) == denied.insert(ip),
{
    assert(denied.insert(ip).insert(ip) =~= denied.insert(ip));
}

} // verus!
