//! Selection of candidate datanodes for new regions.  Production
//! selectors weigh heartbeat state and load; the constant selector used
//! for reproducible scenarios returns a fixed list.

use vstd::prelude::*;
use crate::ids::Peer;

verus! {

/// Options a caller passes to a selector: peers that must not be chosen.
pub struct SelectorOptions {
    pub exclude: Vec<u64>,
}

/// A selector that always proposes the same candidate list, in order.
/// It is a pure function of its construction-time list; namespace and
/// options do not influence it.
pub struct ConstNodeSelector {
    pub peers: Vec<Peer>,
}

impl ConstNodeSelector {
    pub fn new(peers: Vec<Peer>) -> (r: ConstNodeSelector)
        ensures
            r.peers@ == peers@,
    {
        ConstNodeSelector { peers }
    }

    /// Returns the fixed candidate list.
    pub fn select(&self, _namespace: u64, _opts: &SelectorOptions) -> (r: Vec<Peer>)
        ensures
            r@.len() == self.peers@.len(),
            forall|i: int| 0 <= i < r@.len()
                ==> (#[trigger] r@[i]).id == self.peers@[i].id && r@[i].addr@ == self.peers@[i].addr@,
    {
        let mut out: Vec<Peer> = Vec::new();
        let n = self.peers.len();
        for i in 0..n
            invariant
                n == self.peers@.len(),
                out@.len() == i,
                forall|j: int| 0 <= j < i
                    ==> (#[trigger] out@[j]).id == self.peers@[j].id
                        && out@[j].addr@ == self.peers@[j].addr@,
        {
            out.push(self.peers[i].duplicate());
        }
        out
    }
}

} // verus!
