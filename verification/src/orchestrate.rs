//! The scan orchestrator's decision logic: which interfaces take part
//! in a scan. Loopback and container-bridge adapters are excluded by
//! name prefix; one scanner per remaining interface is then run by the
//! caller, and a failure to start one interface's scan must not abort
//! its siblings.

use crate::text::{has_prefix, spec_has_prefix};
use vstd::prelude::*;

verus! {

/// One network adapter, as the enumeration collaborator yields it:
/// supplied once at startup, immutable thereafter.
pub struct NetInterface {
    /// The adapter's name, as the system reports it.
    pub name: String,
    /// The adapter's numeric index, used to scope link-local
    /// connections.
    pub index: u32,
}

/// Whether an interface of this name takes part in a scan: loopback
/// and container-bridge adapters, recognized by name prefix, are
/// excluded entirely.
pub open spec fn spec_eligible(name: Seq<char>) -> bool {
    !spec_has_prefix(name, "lo"@) && !spec_has_prefix(name, "docker"@)
}

/// The predicate on interfaces that `eligible_interfaces` keeps.
pub open spec fn spec_eligible_interface() -> spec_fn(NetInterface) -> bool {
    |itf: NetInterface| spec_eligible(itf.name@)
}

/// Whether an interface of this name takes part in a scan.
pub fn eligible(name: &str) -> (r: bool)
    ensures
        r == spec_eligible(name@),
{
    !(has_prefix(name, "lo") || has_prefix(name, "docker"))
}

impl NetInterface {
    /// One interface, from its name and numeric index.
    pub fn new(name: String, index: u32) -> (r: Self)
        ensures
            r.name@ == name@,
            r.index == index,
    {
        Self { name, index }
    }

    /// Whether this interface takes part in a scan.
    pub fn is_eligible(&self) -> (r: bool)
        ensures
            r == spec_eligible(self.name@),
    {
        eligible(self.name.as_str())
    }
}

/// The interfaces that take part in a scan, in their given order:
/// exactly those whose name marks neither a loopback nor a
/// container-bridge adapter.
pub fn eligible_interfaces(interfaces: &Vec<NetInterface>) -> (r: Vec<NetInterface>)
    ensures
        r@ == interfaces@.filter(spec_eligible_interface()),
{
    let mut out: Vec<NetInterface> = Vec::new();
    let mut i: usize = 0;
    proof {
        reveal(Seq::filter);
        assert(interfaces@.take(0) =~= Seq::<NetInterface>::empty());
    }
    while i < interfaces.len()
        invariant
            i <= interfaces@.len(),
            out@ == interfaces@.take(i as int).filter(spec_eligible_interface()),
        decreases interfaces@.len() - i,
    {
        let itf = &interfaces[i];
        if eligible(itf.name.as_str()) {
            let kept = NetInterface { name: itf.name.clone(), index: itf.index };
            proof {
                assert(kept == interfaces@[i as int]);
            }
            out.push(kept);
        }
        proof {
            reveal(Seq::filter);
            let taken = interfaces@.take(i + 1);
            assert(taken.drop_last() =~= interfaces@.take(i as int));
            assert(taken.last() == interfaces@[i as int]);
        }
        i += 1;
    }
    proof {
        assert(interfaces@.take(interfaces@.len() as int) =~= interfaces@);
    }
    out
}

} // verus!
