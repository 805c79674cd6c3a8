use super::peer::Peer;
use super::HyParViewActor;
use crate::bounded_set::BoundedSet;
use vstd::prelude::*;

verus! {

/// A copy of a node's two views, taken at one instant.
#[derive(Debug)]
pub struct Views {
    pub active_view: BoundedSet<Peer>,
    pub passive_view: BoundedSet<Peer>,
}

/// Two snapshots are equal when both of their views are.
impl PartialEq for Views {
    fn eq(&self, other: &Views) -> (r: bool) {
        self.active_view == other.active_view && self.passive_view == other.passive_view
    }
}

impl vstd::std_specs::cmp::PartialEqSpecImpl for Views {
    open spec fn obeys_eq_spec() -> bool {
        vstd::laws_eq::obeys_concrete_eq::<Peer>()
    }

    open spec fn eq_spec(&self, other: &Views) -> bool {
        &&& self.active_view.limit() == other.active_view.limit()
        &&& self.active_view@ == other.active_view@
        &&& self.passive_view.limit() == other.passive_view.limit()
        &&& self.passive_view@ == other.passive_view@
    }
}

impl Views {
    /// The views of `actor`, copied.
    pub fn from_hyparview(actor: &HyParViewActor) -> (r: Views)
        requires
            actor.wf(),
        ensures
            r.active_view@ == actor.active_view@,
            r.passive_view@ == actor.passive_view@,
            r.active_view.limit() == actor.active_view.limit(),
            r.passive_view.limit() == actor.passive_view.limit(),
    {
        Views { active_view: actor.active_view.clone(), passive_view: actor.passive_view.clone() }
    }
}

} // verus!
