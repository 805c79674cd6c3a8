use vstd::laws_eq::obeys_concrete_eq;
use vstd::prelude::*;

verus! {

/// A remote node, named by the id under which the delivery layer reaches it.
/// Two peers with the same id are the same peer.
#[derive(Clone, Copy, Debug, Eq, Hash)]
pub struct Peer {
    pub id: u64,
}

impl PartialEq for Peer {
    fn eq(&self, other: &Peer) -> (r: bool) {
        self.id == other.id
    }
}

impl vstd::std_specs::cmp::PartialEqSpecImpl for Peer {
    open spec fn obeys_eq_spec() -> bool {
        true
    }

    open spec fn eq_spec(&self, other: &Peer) -> bool {
        self.id == other.id
    }
}

/// Peers compare by their id alone, which is all that they hold.
pub proof fn lemma_peer_eq()
    ensures
        obeys_concrete_eq::<Peer>(),
{
    reveal(obeys_concrete_eq);
}

} // verus!
