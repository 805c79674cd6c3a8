//! The HyParView protocol state machine.
pub mod config;
pub mod message;
pub mod peer;
pub mod views;

use crate::bounded_set::{merged, position, BoundedSet};
use vstd::math::min;
use config::Config;
use message::HpvMsg;
use peer::{lemma_peer_eq, Peer};
use views::Views;
use vstd::prelude::*;

verus! {

/// `view` after `p` is offered to it under capacity `cap`: `p` enters only
/// where there is room.
pub open spec fn admitted(view: Set<Peer>, cap: usize, p: Peer) -> Set<Peer> {
    if view.len() < cap {
        view.insert(p)
    } else {
        view
    }
}

/// The peers of `peers` that neither view holds.
pub open spec fn unseen(peers: Set<Peer>, active: Set<Peer>, passive: Set<Peer>) -> Set<Peer> {
    peers.filter(|p: Peer| !active.contains(p) && !passive.contains(p))
}

/// The addressees of `sends`, in order.
pub open spec fn addressees(sends: Seq<(Peer, HpvMsg)>) -> Seq<Peer> {
    sends.map_values(|e: (Peer, HpvMsg)| e.0)
}

/// `sends` delivers `msg` once to each peer of `to`, and nothing else.
pub open spec fn broadcasts(sends: Seq<(Peer, HpvMsg)>, to: Set<Peer>, msg: HpvMsg) -> bool {
    &&& addressees(sends).no_duplicates()
    &&& addressees(sends).to_set() == to
    &&& forall|i: int| 0 <= i < sends.len() ==> #[trigger] sends[i].1 == msg
}

/// `sends` starts with the eviction of a member of `active`: a `Disconnect`
/// from `self_peer` addressed to it.
pub open spec fn evicts(sends: Seq<(Peer, HpvMsg)>, active: Set<Peer>, self_peer: Peer) -> bool {
    &&& sends.len() >= 1
    &&& active.contains(sends[0].0)
    &&& sends[0].1 == HpvMsg::Disconnect(self_peer)
}

/// `peer` alone when neither view holds it, else nothing: what discovery
/// announces of it.
pub open spec fn fresh(peer: Peer, active: Set<Peer>, passive: Set<Peer>) -> Seq<Peer> {
    if !active.contains(peer) && !passive.contains(peer) {
        seq![peer]
    } else {
        Seq::<Peer>::empty()
    }
}

/// From views `a` and `p` to views `a2` and `p_next` by promoting a random
/// passive peer: it leaves the passive view, is offered to the active one
/// (capacity `ca`), and gets a `Neighbour` request from `self_peer`, with
/// priority when `a` is empty. Nothing happens when `p` is empty.
pub open spec fn promotes(
    a: Set<Peer>,
    p: Set<Peer>,
    ca: usize,
    self_peer: Peer,
    sends: Seq<(Peer, HpvMsg)>,
    a2: Set<Peer>,
    p_next: Set<Peer>,
) -> bool {
    &&& p.len() == 0 ==> sends.len() == 0 && a2 == a && p_next == p
    &&& p.len() > 0 ==> {
        &&& sends.len() == 1
        &&& p.contains(sends[0].0)
        &&& sends[0].1 == HpvMsg::Neighbour { peer: self_peer, prio: a.len() == 0 }
        &&& p_next == p.remove(sends[0].0)
        &&& a2 == admitted(a, ca, sends[0].0)
    }
}

/// From views `a`, `p` to `a2`, `p_next` by taking `x` into the active view
/// (capacity `ca`; the passive one has `cp`), with `sends` the messages that
/// it takes: nothing when `x` is `self_peer` or already active; else, when
/// the active view is full, a random member is evicted to the passive view
/// with a `Disconnect`, and `x` is offered to the active view.
pub open spec fn joins_active(
    a: Set<Peer>,
    p: Set<Peer>,
    ca: usize,
    cp: usize,
    self_peer: Peer,
    x: Peer,
    sends: Seq<(Peer, HpvMsg)>,
    a2: Set<Peer>,
    p_next: Set<Peer>,
) -> bool {
    let wanted = x != self_peer && !a.contains(x);
    let evict = wanted && a.len() == ca && a.len() > 0;
    &&& !wanted ==> sends.len() == 0 && a2 == a && p_next == p
    &&& wanted && !evict ==> sends.len() == 0 && a2 == admitted(a, ca, x) && p_next == p
    &&& evict ==> sends.len() == 1 && evicts(sends, a, self_peer) && a2 == admitted(
        a.remove(sends[0].0),
        ca,
        x,
    ) && p_next == admitted(p, cp, sends[0].0)
}

/// From passive view `p` to `p_next` by offering it `x` (capacity `cp`; `a` is
/// the active view): nothing when `x` is `self_peer` or in either view; else
/// a random member makes room when the view is full, and `x` is offered.
pub open spec fn joins_passive(
    a: Set<Peer>,
    p: Set<Peer>,
    cp: usize,
    self_peer: Peer,
    x: Peer,
    p_next: Set<Peer>,
) -> bool {
    let wanted = x != self_peer && !a.contains(x) && !p.contains(x);
    let full = p.len() == cp && cp > 0;
    &&& !wanted ==> p_next == p
    &&& wanted && full ==> exists|m: Peer| p.contains(m) && p_next == #[trigger] p.remove(m).insert(x)
    &&& wanted && !full ==> p_next == admitted(p, cp, x)
}

/// `exchange` is the union of a sample of `active_part` of size
/// `min(shuffle_active, |active_part|)` and a sample of `passive_part` of
/// size `min(shuffle_passive, |passive_part|)`.
pub open spec fn shuffle_sample(
    exchange: Set<Peer>,
    active_part: Set<Peer>,
    passive_part: Set<Peer>,
    shuffle_active: usize,
    shuffle_passive: usize,
) -> bool {
    exists|xa: Set<Peer>, xp: Set<Peer>|
        {
            &&& exchange == #[trigger] xa.union(xp)
            &&& xa.subset_of(active_part)
            &&& xa.len() == min(shuffle_active as int, active_part.len() as int)
            &&& xp.subset_of(passive_part)
            &&& xp.len() == min(shuffle_passive as int, passive_part.len() as int)
        }
}

/// How `handle_join` takes the node from `before` to `after`, asking for `r`.
pub open spec fn join_outcome(
    before: HyParViewActor,
    after: HyParViewActor,
    self_peer: Peer,
    new_peer: Peer,
    r: Effects,
) -> bool {
    let a = before.active_view@;
    let p = before.passive_view@;
    let ca = before.active_view.limit();
    let cp = before.passive_view.limit();
    let fj = HpvMsg::ForwardJoin {
        joining: new_peer,
        forwarder: self_peer,
        ttl: before.config.active_rwl,
    };
    let evict = !a.contains(new_peer) && a.len() == ca && a.len() > 0;
    &&& evict ==> {
        &&& evicts(r.sends@, a, self_peer)
        &&& broadcasts(r.sends@.skip(1), a.remove(r.sends@[0].0).remove(new_peer), fj)
        &&& after.active_view@ == admitted(a.remove(r.sends@[0].0), ca, new_peer)
        &&& after.passive_view@ == admitted(p, cp, r.sends@[0].0)
    }
    &&& !evict ==> {
        &&& broadcasts(r.sends@, a.remove(new_peer), fj)
        &&& after.active_view@ == admitted(a, ca, new_peer)
        &&& after.passive_view@ == p
    }
    &&& a.len() <= ca && ca > 0 ==> after.active_view@.contains(new_peer)
    &&& before.same_settings(&after)
    &&& r.discovered@ == fresh(new_peer, before.active_view@, before.passive_view@)
}

/// How `handle_forward_join` takes the node from `before` to `after`, asking for `r`.
pub open spec fn forward_join_outcome(
    before: HyParViewActor,
    after: HyParViewActor,
    self_peer: Peer,
    new_peer: Peer,
    forwarder: Peer,
    ttl: usize,
    r: Effects,
) -> bool {
    let a = before.active_view@;
    let p = before.passive_view@;
    let ca = before.active_view.limit();
    let cp = before.passive_view.limit();
    let direct = ttl == 0 || a.len() == 0;
    let a1 = a.remove(forwarder);
    &&& direct ==> joins_active(
        a,
        p,
        ca,
        cp,
        self_peer,
        new_peer,
        r.sends@,
        after.active_view@,
        after.passive_view@,
    )
    &&& !direct ==> {
        &&& (if ttl == before.config.passive_rwl {
            joins_passive(a, p, cp, self_peer, new_peer, after.passive_view@)
        } else {
            after.passive_view@ == p
        })
        &&& a1.len() > 0 ==> {
            &&& r.sends@.len() == 1
            &&& a1.contains(r.sends@[0].0)
            &&& r.sends@[0].1 == (HpvMsg::ForwardJoin {
                joining: new_peer,
                forwarder: self_peer,
                ttl: (ttl - 1) as usize,
            })
            &&& after.active_view@ == admitted(a1, ca, forwarder)
        }
        &&& a1.len() == 0 ==> {
            &&& r.sends@.len() == 0
            &&& after.active_view@ == admitted(
                if new_peer != self_peer {
                    admitted(a1, ca, new_peer)
                } else {
                    a1
                },
                ca,
                forwarder,
            )
        }
    }
    &&& ttl == 0 && new_peer != self_peer && ca > 0 && a.len() <= ca
        ==> after.active_view@.contains(new_peer)
    &&& before.same_settings(&after)
    &&& r.discovered@ == fresh(new_peer, before.active_view@, before.passive_view@)
}

/// How `handle_neighbour` takes the node from `before` to `after`, asking for `r`.
pub open spec fn neighbour_outcome(
    before: HyParViewActor,
    after: HyParViewActor,
    self_peer: Peer,
    neighbour: Peer,
    prio: bool,
    r: Effects,
) -> bool {
    let a = before.active_view@;
    let p = before.passive_view@;
    let ca = before.active_view.limit();
    let cp = before.passive_view.limit();
    let evict = prio && a.len() == ca && a.len() > 0;
    let a1 = if evict { a.remove(r.sends@[0].0) } else { a };
    let p_mid = if evict { admitted(p, cp, r.sends@[0].0) } else { p };
    let accepted = a1.len() != ca;
    &&& evict ==> r.sends@.len() == 2 && evicts(r.sends@, a, self_peer)
    &&& !evict ==> r.sends@.len() == 1
    &&& r.sends@.last() == (
    neighbour,
    HpvMsg::NeighbourReply { peer: self_peer, accepted },
    )
    &&& accepted ==> after.active_view@ == admitted(a1, ca, neighbour)
        && after.passive_view@ == p_mid.remove(neighbour)
    &&& !accepted ==> after.active_view@ == a1 && after.passive_view@ == p_mid
    &&& !prio && a.len() == ca ==> {
        &&& r.sends@ == seq![
            (neighbour, HpvMsg::NeighbourReply { peer: self_peer, accepted: false }),
        ]
        &&& after.active_view@ == a
    }
    &&& before.same_settings(&after)
    &&& r.discovered@ == fresh(neighbour, before.active_view@, before.passive_view@)
}

/// How `handle_neighbour_reply` takes the node from `before` to `after`, asking for `r`.
pub open spec fn neighbour_reply_outcome(
    before: HyParViewActor,
    after: HyParViewActor,
    self_peer: Peer,
    neighbour: Peer,
    accepted: bool,
    r: Effects,
) -> bool {
    &&& before.same_settings(&after)
    &&& r.discovered@ == fresh(neighbour, before.active_view@, before.passive_view@)
    &&& accepted ==> r.sends@.len() == 0 && after.active_view@ == before.active_view@
        && after.passive_view@ == before.passive_view@
    &&& !accepted ==> exists|p_next: Set<Peer>|
        {
            &&& promotes(
                before.active_view@.remove(neighbour),
                before.passive_view@,
                before.active_view.limit(),
                self_peer,
                r.sends@,
                after.active_view@,
                p_next,
            )
            &&& after.passive_view@ == #[trigger] admitted(
                p_next,
                before.passive_view.limit(),
                neighbour,
            )
        }
}

/// How `handle_shuffle` takes the node from `before` to `after`, asking for `r`.
pub open spec fn shuffle_outcome(
    before: HyParViewActor,
    after: HyParViewActor,
    id: u32,
    origin: Peer,
    exchange: Vec<Peer>,
    ttl: usize,
    r: Effects,
) -> bool {
    let a = before.active_view@;
    let p = before.passive_view@;
    let cp = before.passive_view.limit();
    let ends = ttl <= 1 || a.len() <= 1;
    let candidates = p.difference(exchange@.to_set()).remove(origin);
    let incoming = if a.contains(origin) {
        exchange@.to_set()
    } else {
        exchange@.to_set().insert(origin)
    };
    &&& ends ==> {
        &&& after.shuffle_id == before.shuffle_id
        &&& r.sends@.len() == 1
        &&& r.sends@[0].0 == origin
        &&& r.sends@[0].1 matches HpvMsg::ShuffleReply(rid, sample) && {
            &&& rid == id
            &&& sample@.no_duplicates()
            &&& sample@.to_set().subset_of(candidates)
            &&& sample@.len() == min((exchange@.len() + 1) as int, candidates.len() as int)
            &&& merged(p, incoming, sample@.to_set(), cp, after.passive_view@)
        }
    }
    &&& !ends ==> {
        &&& after.shuffle_id == before.shuffle_id.wrapping_add(1)
        &&& after.passive_view@ == p
        &&& a.remove(origin).len() == 0 ==> r.sends@.len() == 0
        &&& a.remove(origin).len() > 0 ==> {
            &&& r.sends@.len() == 1
            &&& a.remove(origin).contains(r.sends@[0].0)
            &&& r.sends@[0].1 matches HpvMsg::Shuffle { id: fid, origin: o, exchange: ex, ttl: t }
                && fid == before.shuffle_id && o == origin && ex@ == exchange@ && t
                == ttl - 1
        }
    }
    &&& after.config == before.config
    &&& after.active_view.limit() == before.active_view.limit()
    &&& after.passive_view.limit() == before.passive_view.limit()
    &&& after.shuffling == before.shuffling
    &&& after.offer == before.offer
    &&& after.active_view@ == before.active_view@
    &&& r.discovered@.no_duplicates()
    &&& r.discovered@.to_set() == unseen(
        exchange@.to_set(),
        before.active_view@,
        before.passive_view@,
    )
}

/// How `handle_shuffle_reply` takes the node from `before` to `after`, asking for `r`.
pub open spec fn shuffle_reply_outcome(
    before: HyParViewActor,
    after: HyParViewActor,
    shuffle_reply_id: u32,
    exchange: Vec<Peer>,
    r: Effects,
) -> bool {
    &&& after.config == before.config
    &&& after.active_view.limit() == before.active_view.limit()
    &&& after.passive_view.limit() == before.passive_view.limit()
    &&& after.shuffle_id == before.shuffle_id
    &&& after.active_view@ == before.active_view@
    &&& r.sends@.len() == 0
    &&& r.discovered@.no_duplicates()
    &&& r.discovered@.to_set() == unseen(
        exchange@.to_set(),
        before.active_view@,
        before.passive_view@,
    )
    &&& before.shuffling && shuffle_reply_id == before.shuffle_id ==> {
        &&& merged(
            before.passive_view@,
            exchange@.to_set(),
            before.offer@.to_set(),
            before.passive_view.limit(),
            after.passive_view@,
        )
        &&& !after.shuffling
        &&& after.offer@.len() == 0
    }
    &&& !(before.shuffling && shuffle_reply_id == before.shuffle_id) ==> {
        &&& after.passive_view@ == before.passive_view@
        &&& after.shuffling == before.shuffling
        &&& after.offer == before.offer
    }
}

/// How `handle_disconnect` takes the node from `before` to `after`, sending `r`.
pub open spec fn disconnect_outcome(
    before: HyParViewActor,
    after: HyParViewActor,
    self_peer: Peer,
    remove: Peer,
    r: Vec<(Peer, HpvMsg)>,
) -> bool {
    &&& before.same_settings(&after)
    &&& promotes(
        before.active_view@.remove(remove),
        before.passive_view@,
        before.active_view.limit(),
        self_peer,
        r@,
        after.active_view@,
        after.passive_view@,
    )
    &&& before.active_view@ == set![remove] && before.passive_view@.len() > 0
        && before.active_view.limit() > 0 ==> {
        &&& r@.len() == 1
        &&& r@[0].1 == (HpvMsg::Neighbour { peer: self_peer, prio: true })
        &&& before.passive_view@.contains(r@[0].0)
        &&& !after.passive_view@.contains(r@[0].0)
        &&& after.active_view@ == set![r@[0].0]
    }
}

/// What a handler asks of the world around the node.
pub struct Effects {
    /// Messages to deliver, each with its addressee.
    pub sends: Vec<(Peer, HpvMsg)>,
    /// Peers seen for the first time, for the discovery output.
    pub discovered: Vec<Peer>,
}

/// One node of the overlay: its two views, its settings and the
/// bookkeeping of the shuffles that it starts.
pub struct HyParViewActor {
    pub config: Config,
    pub active_view: BoundedSet<Peer>,
    pub passive_view: BoundedSet<Peer>,
    /// Id of the next shuffle that this node starts or forwards.
    pub shuffle_id: u32,
    /// Whether a shuffle of this node awaits its reply.
    pub shuffling: bool,
    /// The exchange set of the outstanding shuffle.
    pub offer: Vec<Peer>,
}

impl HyParViewActor {
    /// Both views are well formed.
    pub open spec fn wf(&self) -> bool {
        self.active_view.wf() && self.passive_view.wf()
    }

    /// `other` has the settings and the shuffle bookkeeping of `self`.
    pub open spec fn same_settings(&self, other: &Self) -> bool {
        &&& other.config == self.config
        &&& other.active_view.limit() == self.active_view.limit()
        &&& other.passive_view.limit() == self.passive_view.limit()
        &&& other.shuffle_id == self.shuffle_id
        &&& other.shuffling == self.shuffling
        &&& other.offer == self.offer
    }

    /// A node with the default settings, empty views and no shuffle under way.
    pub fn default() -> (r: HyParViewActor)
        ensures
            r.wf(),
            r.active_view@ == Set::<Peer>::empty(),
            r.passive_view@ == Set::<Peer>::empty(),
            r.active_view.limit() == r.config.max_active_view_size,
            r.passive_view.limit() == r.config.max_passive_view_size,
            r.config.max_active_view_size == 4,
            r.config.max_passive_view_size == 4,
            r.config.active_rwl == 3,
            r.config.passive_rwl == 2,
            r.config.shuffle_rwl == 1,
            r.config.shuffle_active == 2,
            r.config.shuffle_passive == 2,
            r.shuffle_id == 0,
            !r.shuffling,
            r.offer@.len() == 0,
    {
        proof {
            lemma_peer_eq();
        }
        let config = Config::default();
        HyParViewActor {
            config,
            active_view: BoundedSet::new(config.max_active_view_size),
            passive_view: BoundedSet::new(config.max_passive_view_size),
            shuffle_id: 0,
            shuffling: false,
            offer: Vec::new(),
        }
    }

    /// Makes the view capacities those of the configuration; members beyond
    /// a smaller capacity stay.
    fn apply_capacity_config(&mut self)
        requires
            old(self).wf(),
        ensures
            final(self).wf(),
            final(self).config == old(self).config,
            final(self).active_view@ == old(self).active_view@,
            final(self).passive_view@ == old(self).passive_view@,
            final(self).active_view.limit() == old(self).config.max_active_view_size,
            final(self).passive_view.limit() == old(self).config.max_passive_view_size,
            final(self).shuffle_id == old(self).shuffle_id,
            final(self).shuffling == old(self).shuffling,
            final(self).offer == old(self).offer,
    {
        self.active_view.set_capacity(self.config.max_active_view_size);
        self.passive_view.set_capacity(self.config.max_passive_view_size);
    }

    /// Replaces the settings and applies the new view capacities.
    pub fn set_config(&mut self, config: Config)
        requires
            old(self).wf(),
        ensures
            final(self).wf(),
            final(self).config == config,
            final(self).active_view@ == old(self).active_view@,
            final(self).passive_view@ == old(self).passive_view@,
            final(self).active_view.limit() == config.max_active_view_size,
            final(self).passive_view.limit() == config.max_passive_view_size,
            final(self).shuffle_id == old(self).shuffle_id,
            final(self).shuffling == old(self).shuffling,
            final(self).offer == old(self).offer,
    {
        self.config = config;
        self.apply_capacity_config();
    }

    /// Offers `p` to the passive view.
    pub fn add_passive_node(&mut self, p: Peer) -> (r: &mut Self)
        requires
            old(self).wf(),
        ensures
            *final(self) == *final(r),
            r.wf(),
            old(self).same_settings(r),
            r.active_view@ == old(self).active_view@,
            r.passive_view@ == admitted(old(self).passive_view@, old(self).passive_view.limit(), p),
    {
        self.passive_view.insert(p);
        self
    }

    /// Offers `p` to the active view.
    pub fn add_active_node(&mut self, p: Peer) -> (r: &mut Self)
        requires
            old(self).wf(),
        ensures
            *final(self) == *final(r),
            r.wf(),
            old(self).same_settings(r),
            r.active_view@ == admitted(old(self).active_view@, old(self).active_view.limit(), p),
            r.passive_view@ == old(self).passive_view@,
    {
        self.active_view.insert(p);
        self
    }

    /// Offers each of `peers`, in order, to the passive view.
    pub fn add_passive_view(&mut self, peers: Vec<Peer>) -> (r: &mut Self)
        requires
            old(self).wf(),
        ensures
            *final(self) == *final(r),
            r.wf(),
            old(self).same_settings(r),
            r.active_view@ == old(self).active_view@,
            old(self).passive_view@.subset_of(r.passive_view@),
            r.passive_view@.subset_of(old(self).passive_view@.union(peers@.to_set())),
            old(self).passive_view@.len() < old(self).passive_view.limit() ==> (
            peers@.to_set().subset_of(r.passive_view@) || r.passive_view@.len()
                == r.passive_view.limit()),
    {
        add_all(&mut self.passive_view, &peers);
        self
    }

    /// Offers each of `peers`, in order, to the active view.
    pub fn add_active_view(&mut self, peers: Vec<Peer>) -> (r: &mut Self)
        requires
            old(self).wf(),
        ensures
            *final(self) == *final(r),
            r.wf(),
            old(self).same_settings(r),
            r.passive_view@ == old(self).passive_view@,
            old(self).active_view@.subset_of(r.active_view@),
            r.active_view@.subset_of(old(self).active_view@.union(peers@.to_set())),
            old(self).active_view@.len() < old(self).active_view.limit() ==> (
            peers@.to_set().subset_of(r.active_view@) || r.active_view@.len()
                == r.active_view.limit()),
    {
        add_all(&mut self.active_view, &peers);
        self
    }

    /// Records an outstanding shuffle with the given id and exchange set.
    pub fn set_shuffling(&mut self, id: u32, offer: Vec<Peer>) -> (r: &mut Self)
        requires
            old(self).wf(),
        ensures
            *final(self) == *final(r),
            r.wf(),
            r.config == old(self).config,
            r.active_view == old(self).active_view,
            r.passive_view == old(self).passive_view,
            r.shuffling,
            r.shuffle_id == id,
            r.offer == offer,
    {
        self.shuffling = true;
        self.shuffle_id = id;
        self.offer = offer;
        self
    }

    /// The peers of `peers` that neither view holds, each once.
    pub fn publish_peers(&self, peers: &Vec<Peer>) -> (r: Vec<Peer>)
        requires
            self.wf(),
        ensures
            r@.no_duplicates(),
            r@.to_set() == unseen(peers@.to_set(), self.active_view@, self.passive_view@),
    {
        proof {
            lemma_peer_eq();
        }
        let ghost target = unseen(peers@.to_set(), self.active_view@, self.passive_view@);
        let mut r: Vec<Peer> = Vec::new();
        let mut i: usize = 0;
        while i < peers.len()
            invariant
                self.wf(),
                vstd::laws_eq::obeys_concrete_eq::<Peer>(),
                target == unseen(peers@.to_set(), self.active_view@, self.passive_view@),
                i <= peers@.len(),
                r@.no_duplicates(),
                forall|x: Peer| #[trigger] r@.contains(x) ==> target.contains(x),
                forall|j: int| 0 <= j < i && target.contains(peers@[j]) ==> r@.contains(
                    #[trigger] peers@[j],
                ),
            decreases peers@.len() - i,
        {
            let p = peers[i];
            proof {
                assert(peers@.to_set().contains(p));
            }
            if !self.active_view.contains(&p) && !self.passive_view.contains(&p) && position(
                &r,
                &p,
            ).is_none() {
                let ghost before = r@;
                r.push(p);
                proof {
                    assert forall|a: int, b: int| 0 <= a < r@.len() && 0 <= b < r@.len() && a != b
                        implies r@[a] != r@[b] by {
                        if a == r@.len() - 1 {
                            assert(before.contains(r@[b]));
                        }
                        if b == r@.len() - 1 {
                            assert(before.contains(r@[a]));
                        }
                    }
                    assert forall|x: Peer| #[trigger] r@.contains(x) implies target.contains(x) by {
                        if x != p {
                            let k = choose|k: int| 0 <= k < r@.len() && r@[k] == x;
                            assert(before[k] == x);
                            assert(before.contains(x));
                        } else {
                            assert(peers@.to_set().contains(p));
                            assert(!self.active_view@.contains(p) && !self.passive_view@.contains(p));
                            assert(target.contains(p));
                        }
                    }
                    assert forall|j: int| 0 <= j <= i && target.contains(peers@[j])
                        implies r@.contains(#[trigger] peers@[j]) by {
                        if j < i {
                            let k = choose|k: int| 0 <= k < before.len() && before[k] == peers@[j];
                            assert(r@[k] == peers@[j]);
                        } else {
                            assert(r@[r@.len() - 1] == p);
                        }
                    }
                }
            }
            i += 1;
        }
        proof {
            assert forall|x: Peer| target.contains(x) implies #[trigger] r@.contains(x) by {
                let j = choose|j: int| 0 <= j < peers@.len() && peers@[j] == x;
            }
            assert(r@.to_set() =~= target);
        }
        r
    }

    /// `peer` alone if neither view holds it, else nothing.
    pub fn publish_peer(&self, peer: Peer) -> (r: Vec<Peer>)
        requires
            self.wf(),
        ensures
            r@ == fresh(peer, self.active_view@, self.passive_view@),
    {
        let mut r: Vec<Peer> = Vec::new();
        if !self.active_view.contains(&peer) && !self.passive_view.contains(&peer) {
            r.push(peer);
        }
        proof {
            assert(r@ =~= if !self.active_view@.contains(peer) && !self.passive_view@.contains(peer) {
                seq![peer]
            } else {
                Seq::<Peer>::empty()
            });
        }
        r
    }

    /// Moves a random active peer to the passive view (where there is room
    /// for it) and tells it with a `Disconnect`; nothing when the active view
    /// is empty.
    pub fn drop_random_active_peer(&mut self, self_peer: &Peer) -> (r: Vec<(Peer, HpvMsg)>)
        requires
            old(self).wf(),
        ensures
            final(self).wf(),
            old(self).same_settings(final(self)),
            old(self).active_view@.len() == 0 ==> r@.len() == 0 && final(self).active_view@
                == old(self).active_view@ && final(self).passive_view@ == old(self).passive_view@,
            old(self).active_view@.len() > 0 ==> {
                &&& r@.len() == 1
                &&& evicts(r@, old(self).active_view@, *self_peer)
                &&& final(self).active_view@ == old(self).active_view@.remove(r@[0].0)
                &&& final(self).passive_view@ == admitted(
                    old(self).passive_view@,
                    old(self).passive_view.limit(),
                    r@[0].0,
                )
            },
    {
        let mut sends: Vec<(Peer, HpvMsg)> = Vec::new();
        let picked: Option<Peer> = match self.active_view.sample_one() {
            Some(node) => Some(*node),
            None => None,
        };
        match picked {
            Some(node) => {
                sends.push((node, HpvMsg::Disconnect(*self_peer)));
                self.active_view.remove(&node);
                self.passive_view.insert(node);
            },
            None => {},
        }
        sends
    }

    /// Takes `new_peer` into the active view, evicting a random active peer
    /// first when the view is full; nothing when `new_peer` is this node or
    /// already active.
    pub fn add_node_to_active_view(&mut self, self_peer: Peer, new_peer: Peer) -> (r: Vec<
        (Peer, HpvMsg),
    >)
        requires
            old(self).wf(),
        ensures
            final(self).wf(),
            old(self).same_settings(final(self)),
            joins_active(
                old(self).active_view@,
                old(self).passive_view@,
                old(self).active_view.limit(),
                old(self).passive_view.limit(),
                self_peer,
                new_peer,
                r@,
                final(self).active_view@,
                final(self).passive_view@,
            ),
    {
        let mut sends: Vec<(Peer, HpvMsg)> = Vec::new();
        if new_peer != self_peer && !self.active_view.contains(&new_peer) {
            if self.active_view.is_full() {
                sends = self.drop_random_active_peer(&self_peer);
            }
            self.promote_peer(new_peer);
        }
        sends
    }

    /// Takes `new_peer` into the passive view, dropping a random passive peer
    /// first when the view is full; nothing when `new_peer` is this node or in
    /// either view.
    pub fn add_node_to_passive_view(&mut self, self_peer: Peer, new_peer: Peer)
        requires
            old(self).wf(),
        ensures
            final(self).wf(),
            old(self).same_settings(final(self)),
            final(self).active_view@ == old(self).active_view@,
            joins_passive(
                old(self).active_view@,
                old(self).passive_view@,
                old(self).passive_view.limit(),
                self_peer,
                new_peer,
                final(self).passive_view@,
            ),
    {
        if new_peer != self_peer && !self.active_view.contains(&new_peer)
            && !self.passive_view.contains(&new_peer) {
            if self.passive_view.is_full() {
                let picked: Option<Peer> = match self.passive_view.sample_one() {
                    Some(m) => Some(*m),
                    None => None,
                };
                match picked {
                    Some(m) => {
                        proof {
                            self.passive_view.lemma_finite();
                        }
                        self.passive_view.remove(&m);
                    },
                    None => {},
                }
            }
            self.passive_view.insert(new_peer);
        }
    }

    /// Promotes a random passive peer to the active view and asks it to be a
    /// neighbour, with priority when the active view is empty.
    pub fn promote_random_peer(&mut self, self_peer: Peer) -> (r: Vec<(Peer, HpvMsg)>)
        requires
            old(self).wf(),
        ensures
            final(self).wf(),
            old(self).same_settings(final(self)),
            promotes(
                old(self).active_view@,
                old(self).passive_view@,
                old(self).active_view.limit(),
                self_peer,
                r@,
                final(self).active_view@,
                final(self).passive_view@,
            ),
    {
        let mut sends: Vec<(Peer, HpvMsg)> = Vec::new();
        let picked: Option<Peer> = match self.passive_view.sample_one() {
            Some(c) => Some(*c),
            None => None,
        };
        match picked {
            Some(candidate) => {
                let prio = self.active_view.len() == 0;
                sends.push((candidate, HpvMsg::Neighbour { peer: self_peer, prio }));
                self.passive_view.remove(&candidate);
                self.promote_peer(candidate);
            },
            None => {},
        }
        sends
    }

    /// `remove` leaves the active view, and a random passive peer is
    /// promoted in its place.
    pub fn handle_disconnect(&mut self, self_peer: Peer, remove: &Peer) -> (r: Vec<(Peer, HpvMsg)>)
        requires
            old(self).wf(),
        ensures
            final(self).wf(),
            disconnect_outcome(*old(self), *final(self), self_peer, *remove, r),

    {
        if self.active_view.contains(remove) {
            self.active_view.remove(remove);
        }
        proof {
            if old(self).active_view@ == set![*remove] {
                assert(self.active_view@ =~= Set::<Peer>::empty());
            }
            if !old(self).active_view@.contains(*remove) {
                assert(old(self).active_view@.remove(*remove) =~= old(self).active_view@);
            }
            self.passive_view.lemma_finite();
        }
        let r = self.promote_random_peer(self_peer);
        proof {
            if old(self).active_view@ == set![*remove] && old(self).passive_view@.len() > 0
                && old(self).active_view.limit() > 0 {
                assert(old(self).active_view@.remove(*remove) =~= Set::<Peer>::empty());
                assert(Set::<Peer>::empty().insert(r@[0].0) =~= set![r@[0].0]);
            }
        }
        r
    }

    /// Sends `Join(self_peer)` to `bootstrap`.
    pub fn handle_init_join(&mut self, self_peer: Peer, bootstrap: Peer) -> (r: Vec<(Peer, HpvMsg)>)
        ensures
            r@ == seq![(bootstrap, HpvMsg::Join(self_peer))],
            *final(self) == *old(self),
    {
        let mut sends: Vec<(Peer, HpvMsg)> = Vec::new();
        sends.push((bootstrap, HpvMsg::Join(self_peer)));
        proof {
            assert(sends@ =~= seq![(bootstrap, HpvMsg::Join(self_peer))]);
        }
        sends
    }

    /// `new_peer` joins through this node: it enters the active view (a random
    /// active peer is evicted first when the view is full), and every other
    /// active peer gets a `ForwardJoin` for it.
    pub fn handle_join(&mut self, self_peer: Peer, new_peer: Peer) -> (r: Effects)
        requires
            old(self).wf(),
        ensures
            final(self).wf(),
            join_outcome(*old(self), *final(self), self_peer, new_peer, r),

    {
        let discovered = self.publish_peer(new_peer);
        let mut sends: Vec<(Peer, HpvMsg)> = Vec::new();
        if !self.active_view.contains(&new_peer) && self.active_view.is_full() {
            sends = self.drop_random_active_peer(&self_peer);
        }
        let ghost evicted = sends@;
        let targets = self.active_view.elements();
        let mut forwards = forward_joins(
            &targets,
            new_peer,
            new_peer,
            self_peer,
            self.config.active_rwl,
        );
        let ghost fw = forwards@;
        sends.append(&mut forwards);
        proof {
            assert(sends@ == evicted + fw);
            if evicted.len() == 1 {
                assert(sends@.skip(1) =~= fw);
                assert(sends@[0] == evicted[0]);
            } else {
                assert(sends@ =~= fw);
            }
            old(self).active_view.lemma_finite();
        }
        self.promote_peer(new_peer);
        Effects { sends, discovered }
    }

    /// `neighbour` asks to enter the active view. With `prio`, a random
    /// active peer makes room when the view is full; the request is accepted
    /// when the view then has room, and the answer goes back to `neighbour`.
    pub fn handle_neighbour(&mut self, self_peer: Peer, neighbour: Peer, prio: bool) -> (r: Effects)
        requires
            old(self).wf(),
        ensures
            final(self).wf(),
            neighbour_outcome(*old(self), *final(self), self_peer, neighbour, prio, r),

    {
        let discovered = self.publish_peer(neighbour);
        let mut sends: Vec<(Peer, HpvMsg)> = Vec::new();
        if prio && self.active_view.is_full() {
            sends = self.drop_random_active_peer(&self_peer);
        }
        if self.active_view.is_full() {
            sends.push((neighbour, HpvMsg::NeighbourReply { peer: self_peer, accepted: false }));
            proof {
                if !prio {
                    assert(sends@ =~= seq![
                        (neighbour, HpvMsg::NeighbourReply { peer: self_peer, accepted: false }),
                    ]);
                }
            }
        } else {
            sends.push((neighbour, HpvMsg::NeighbourReply { peer: self_peer, accepted: true }));
            self.promote_peer(neighbour);
            self.passive_view.remove(&neighbour);
        }
        Effects { sends, discovered }
    }

    /// The answer to this node's `Neighbour` request. A refusal counts as a
    /// disconnect of `neighbour`, which is then offered to the passive view.
    pub fn handle_neighbour_reply(&mut self, self_peer: Peer, neighbour: Peer, accepted: bool) -> (r:
        Effects)
        requires
            old(self).wf(),
        ensures
            final(self).wf(),
            neighbour_reply_outcome(*old(self), *final(self), self_peer, neighbour, accepted, r),

    {
        let discovered = self.publish_peer(neighbour);
        let mut sends: Vec<(Peer, HpvMsg)> = Vec::new();
        if !accepted {
            sends = self.handle_disconnect(self_peer, &neighbour);
            let ghost p_next = self.passive_view@;
            self.passive_view.insert(neighbour);
            proof {
                assert(final(self).passive_view@ == admitted(p_next, old(self).passive_view.limit(), neighbour));
            }
        }
        Effects { sends, discovered }
    }

    /// A join walking through the overlay. With no hops left, or no active
    /// peer to pass it to, `joining` is taken into the active view. Else it is
    /// offered to the passive view at hop count `passive_rwl`, and passed on
    /// with one hop less to a random active peer other than `forwarder`
    /// (taken in here when there is none); `forwarder` is offered to the active
    /// view again at the end.
    pub fn handle_forward_join(
        &mut self,
        self_peer: Peer,
        new_peer: Peer,
        forwarder: Peer,
        ttl: usize,
    ) -> (r: Effects)
        requires
            old(self).wf(),
        ensures
            final(self).wf(),
            forward_join_outcome(*old(self), *final(self), self_peer, new_peer, forwarder, ttl, r),

    {
        let discovered = self.publish_peer(new_peer);
        let mut sends: Vec<(Peer, HpvMsg)> = Vec::new();
        proof {
            old(self).active_view.lemma_finite();
        }
        if ttl == 0 || self.active_view.len() == 0 {
            sends = self.add_node_to_active_view(self_peer, new_peer);
        } else {
            if ttl == self.config.passive_rwl {
                self.add_node_to_passive_view(self_peer, new_peer);
            }
            let ghost p_mid = self.passive_view@;
            self.active_view.remove(&forwarder);
            let ghost a1 = self.active_view@;
            let picked: Option<Peer> = match self.active_view.sample_one() {
                Some(q) => Some(*q),
                None => None,
            };
            match picked {
                Some(q) => {
                    sends.push(
                        (
                            q,
                            HpvMsg::ForwardJoin {
                                joining: new_peer,
                                forwarder: self_peer,
                                ttl: ttl - 1,
                            },
                        ),
                    );
                },
                None => {
                    sends = self.add_node_to_active_view(self_peer, new_peer);
                },
            }
            let ghost a2 = self.active_view@;
            self.active_view.insert(forwarder);
            proof {
                assert(a1.len() == 0 ==> joins_active(
                    a1,
                    p_mid,
                    old(self).active_view.limit(),
                    old(self).passive_view.limit(),
                    self_peer,
                    new_peer,
                    sends@,
                    a2,
                    self.passive_view@,
                ));
                assert(a1 == old(self).active_view@.remove(forwarder));
            }
        }
        Effects { sends, discovered }
    }

    /// A shuffle from `origin`. At its last hop (`ttl` 1 or less), or where this node
    /// has at most one active peer, the shuffle ends here: `origin` gets back
    /// a sample of the passive view without `exchange` and `origin`, of
    /// `exchange`'s length plus one, and `exchange` (with `origin`, when it is
    /// not active) is merged into the passive view, room going last to that
    /// sample. Else the shuffle goes on, under this node's next shuffle id and
    /// with one hop less, to a random active peer other than `origin` (it
    /// ends where there is none).
    pub fn handle_shuffle(&mut self, id: u32, origin: Peer, exchange: Vec<Peer>, ttl: usize) -> (r:
        Effects)
        requires
            old(self).wf(),
        ensures
            final(self).wf(),
            shuffle_outcome(*old(self), *final(self), id, origin, exchange, ttl, r),

    {
        proof {
            lemma_peer_eq();
            old(self).active_view.lemma_finite();
            old(self).passive_view.lemma_finite();
        }
        let discovered = self.publish_peers(&exchange);
        let mut sends: Vec<(Peer, HpvMsg)> = Vec::new();
        if ttl <= 1 || self.active_view.len() <= 1 {
            let mut fragment = self.passive_view.clone();
            let mut i: usize = 0;
            while i < exchange.len()
                invariant
                    fragment.wf(),
                    i <= exchange@.len(),
                    forall|x: Peer| #[trigger] fragment@.contains(x) <==> (
                    old(self).passive_view@.contains(x) && forall|j: int|
                        0 <= j < i ==> exchange@[j] != x),
                decreases exchange@.len() - i,
            {
                fragment.remove(&exchange[i]);
                i += 1;
            }
            proof {
                assert forall|x: Peer| #[trigger] fragment@.contains(x) <==> old(self).passive_view@.difference(
                    exchange@.to_set(),
                ).contains(x) by {
                    if exchange@.to_set().contains(x) {
                        let j = choose|j: int| 0 <= j < exchange@.len() && exchange@[j] == x;
                    }
                }
            }
            fragment.remove(&origin);
            let n = exchange.len();
            let available = fragment.len();
            let want = if n < available { n + 1 } else { available };
            proof {
                fragment.lemma_finite();
                assert(fragment@ =~= old(self).passive_view@.difference(exchange@.to_set()).remove(origin));
                vstd::set_lib::lemma_len_subset(fragment@, old(self).passive_view@);
                assert(fragment@.len() <= old(self).passive_view@.len());
            }
            let sample = fragment.sample(want);
            let reply = copy_peers(&sample);
            sends.push((origin, HpvMsg::ShuffleReply(id, reply)));
            let mut all = exchange;
            let ghost before_all = all@;
            if !self.active_view.contains(&origin) {
                all.push(origin);
            }
            proof {
                let incoming = if old(self).active_view@.contains(origin) {
                    exchange@.to_set()
                } else {
                    exchange@.to_set().insert(origin)
                };
                if !old(self).active_view@.contains(origin) {
                    before_all.lemma_push_to_set_commute(origin);
                }
                assert(all@.to_set() == incoming);
            }
            self.passive_view.bounded_union(&all, &sample);
        } else {
            let forward = HpvMsg::Shuffle { id: self.shuffle_id, origin, exchange, ttl: ttl - 1 };
            self.shuffle_id = self.shuffle_id.wrapping_add(1);
            let mut others = self.active_view.clone();
            others.remove(&origin);
            let picked: Option<Peer> = match others.sample_one() {
                Some(t) => Some(*t),
                None => None,
            };
            match picked {
                Some(target) => {
                    sends.push((target, forward));
                },
                None => {},
            }
        }
        Effects { sends, discovered }
    }

    /// The reply to a shuffle. It is merged into the passive view, room going
    /// last to the peers that the shuffle offered, only when this node awaits
    /// the reply to the shuffle with id `shuffle_reply_id`; else it is ignored.
    pub fn handle_shuffle_reply(&mut self, shuffle_reply_id: u32, exchange: Vec<Peer>) -> (r:
        Effects)
        requires
            old(self).wf(),
        ensures
            final(self).wf(),
            shuffle_reply_outcome(*old(self), *final(self), shuffle_reply_id, exchange, r),

    {
        let discovered = self.publish_peers(&exchange);
        if self.shuffling && self.shuffle_id == shuffle_reply_id {
            self.passive_view.bounded_union(&exchange, &self.offer);
            self.offer = Vec::new();
            self.shuffling = false;
        }
        Effects { sends: Vec::new(), discovered }
    }

    /// Starts a shuffle: a random active peer gets a sample of the other
    /// active peers and of the passive view under the current shuffle id,
    /// which then advances, and the sample is recorded as the outstanding
    /// offer. Whether or not there was an active peer, a passive peer is
    /// promoted when the active view is not full.
    pub fn initiate_shuffle(&mut self, self_peer: Peer) -> (r: Vec<(Peer, HpvMsg)>)
        requires
            old(self).wf(),
        ensures
            final(self).wf(),
            final(self).config == old(self).config,
            final(self).active_view.limit() == old(self).active_view.limit(),
            final(self).passive_view.limit() == old(self).passive_view.limit(),
            ({
                let a = old(self).active_view@;
                let p = old(self).passive_view@;
                let ca = old(self).active_view.limit();
                let started = a.len() > 0;
                let rest = if started { r@.skip(1) } else { r@ };
                &&& !started ==> {
                    &&& final(self).shuffle_id == old(self).shuffle_id
                    &&& final(self).shuffling == old(self).shuffling
                    &&& final(self).offer == old(self).offer
                }
                &&& started ==> {
                    &&& r@.len() >= 1
                    &&& a.contains(r@[0].0)
                    &&& r@[0].1 matches HpvMsg::Shuffle { id, origin, exchange, ttl } && {
                        &&& id == old(self).shuffle_id
                        &&& origin == self_peer
                        &&& ttl == old(self).config.shuffle_rwl
                        &&& exchange@.no_duplicates()
                        &&& shuffle_sample(
                            exchange@.to_set(),
                            a.remove(r@[0].0),
                            p,
                            old(self).config.shuffle_active,
                            old(self).config.shuffle_passive,
                        )
                        &&& final(self).offer@ == exchange@
                    }
                    &&& final(self).shuffle_id == old(self).shuffle_id.wrapping_add(1)
                    &&& final(self).shuffling
                }
                &&& a.len() != ca ==> promotes(
                    a,
                    p,
                    ca,
                    self_peer,
                    rest,
                    final(self).active_view@,
                    final(self).passive_view@,
                )
                &&& a.len() == ca ==> rest.len() == 0 && final(self).active_view@ == a
                    && final(self).passive_view@ == p
            }),
    {
        let mut sends: Vec<(Peer, HpvMsg)> = Vec::new();
        let picked: Option<Peer> = match self.active_view.sample_one() {
            Some(t) => Some(*t),
            None => None,
        };
        match picked {
            Some(target) => {
                let mut others = self.active_view.clone();
                others.remove(&target);
                let active_part = others.sample(self.config.shuffle_active);
                let passive_part = self.passive_view.sample(self.config.shuffle_passive);
                let exchange = union_of(&active_part, &passive_part);
                proof {
                    assert(exchange@.to_set() == active_part@.to_set().union(passive_part@.to_set()));
                    active_part@.unique_seq_to_set();
                    passive_part@.unique_seq_to_set();
                }
                let offer = copy_peers(&exchange);
                sends.push(
                    (
                        target,
                        HpvMsg::Shuffle {
                            id: self.shuffle_id,
                            origin: self_peer,
                            exchange,
                            ttl: self.config.shuffle_rwl,
                        },
                    ),
                );
                self.shuffle_id = self.shuffle_id.wrapping_add(1);
                self.shuffling = true;
                self.offer = offer;
            },
            None => {},
        }
        let ghost first = sends@;
        if !self.active_view.is_full() {
            let mut more = self.promote_random_peer(self_peer);
            sends.append(&mut more);
        }
        proof {
            if first.len() == 1 {
                assert(sends@.skip(1) =~= sends@.subrange(1, sends@.len() as int));
                assert(sends@[0] == first[0]);
            }
        }
        sends
    }

    /// A copy of both views.
    pub fn handle_inspect(&self) -> (r: Views)
        requires
            self.wf(),
        ensures
            r.active_view@ == self.active_view@,
            r.passive_view@ == self.passive_view@,
            r.active_view.limit() == self.active_view.limit(),
            r.passive_view.limit() == self.passive_view.limit(),
    {
        Views::from_hyparview(self)
    }

    /// Changes the settings through `f` and applies the new view capacities.
    pub fn change_config<F>(&mut self, f: F)
        where
            F: FnOnce(Config) -> Config,
        requires
            old(self).wf(),
            f.requires((old(self).config,)),
        ensures
            final(self).wf(),
            f.ensures((old(self).config,), final(self).config),
            final(self).active_view@ == old(self).active_view@,
            final(self).passive_view@ == old(self).passive_view@,
            final(self).active_view.limit() == final(self).config.max_active_view_size,
            final(self).passive_view.limit() == final(self).config.max_passive_view_size,
            final(self).shuffle_id == old(self).shuffle_id,
            final(self).shuffling == old(self).shuffling,
            final(self).offer == old(self).offer,
    {
        let config = f(self.config);
        self.set_config(config);
    }

    /// Reacts to `msg` with the handler of its kind.
    pub fn handle(&mut self, self_peer: Peer, msg: HpvMsg) -> (r: Effects)
        requires
            old(self).wf(),
        ensures
            final(self).wf(),
            match msg {
                HpvMsg::InitiateJoin(bootstrap) => {
                    &&& *final(self) == *old(self)
                    &&& r.sends@ == seq![(bootstrap, HpvMsg::Join(self_peer))]
                    &&& r.discovered@.len() == 0
                },
                HpvMsg::Join(p) => join_outcome(*old(self), *final(self), self_peer, p, r),
                HpvMsg::ForwardJoin { joining, forwarder, ttl } => forward_join_outcome(
                    *old(self),
                    *final(self),
                    self_peer,
                    joining,
                    forwarder,
                    ttl,
                    r,
                ),
                HpvMsg::Neighbour { peer, prio } => neighbour_outcome(
                    *old(self),
                    *final(self),
                    self_peer,
                    peer,
                    prio,
                    r,
                ),
                HpvMsg::NeighbourReply { peer, accepted } => neighbour_reply_outcome(
                    *old(self),
                    *final(self),
                    self_peer,
                    peer,
                    accepted,
                    r,
                ),
                HpvMsg::Shuffle { id, origin, exchange, ttl } => shuffle_outcome(
                    *old(self),
                    *final(self),
                    id,
                    origin,
                    exchange,
                    ttl,
                    r,
                ),
                HpvMsg::ShuffleReply(id, peers) => shuffle_reply_outcome(
                    *old(self),
                    *final(self),
                    id,
                    peers,
                    r,
                ),
                HpvMsg::Disconnect(p) => {
                    &&& disconnect_outcome(*old(self), *final(self), self_peer, p, r.sends)
                    &&& r.discovered@.len() == 0
                },
            },
    {
        match msg {
            HpvMsg::InitiateJoin(bootstrap) => {
                let sends = self.handle_init_join(self_peer, bootstrap);
                Effects { sends, discovered: Vec::new() }
            },
            HpvMsg::Join(p) => self.handle_join(self_peer, p),
            HpvMsg::ForwardJoin { joining, forwarder, ttl } => self.handle_forward_join(
                self_peer,
                joining,
                forwarder,
                ttl,
            ),
            HpvMsg::Neighbour { peer, prio } => self.handle_neighbour(self_peer, peer, prio),
            HpvMsg::NeighbourReply { peer, accepted } => self.handle_neighbour_reply(
                self_peer,
                peer,
                accepted,
            ),
            HpvMsg::Shuffle { id, origin, exchange, ttl } => self.handle_shuffle(
                id,
                origin,
                exchange,
                ttl,
            ),
            HpvMsg::ShuffleReply(id, peers) => self.handle_shuffle_reply(id, peers),
            HpvMsg::Disconnect(p) => {
                let sends = self.handle_disconnect(self_peer, &p);
                Effects { sends, discovered: Vec::new() }
            },
        }
    }

    /// Offers `new_peer` to the active view.
    pub fn promote_peer(&mut self, new_peer: Peer)
        requires
            old(self).wf(),
        ensures
            final(self).wf(),
            old(self).same_settings(final(self)),
            final(self).active_view@ == admitted(
                old(self).active_view@,
                old(self).active_view.limit(),
                new_peer,
            ),
            final(self).passive_view@ == old(self).passive_view@,
    {
        self.active_view.insert(new_peer);
    }
}

/// A `ForwardJoin` of `joining` by `forwarder` with `ttl` hops left to each
/// of `targets` but `skip`.
fn forward_joins(targets: &Vec<Peer>, skip: Peer, joining: Peer, forwarder: Peer, ttl: usize) -> (r:
    Vec<(Peer, HpvMsg)>)
    requires
        targets@.no_duplicates(),
    ensures
        broadcasts(
            r@,
            targets@.to_set().remove(skip),
            HpvMsg::ForwardJoin { joining, forwarder, ttl },
        ),
{
    let ghost msg = HpvMsg::ForwardJoin { joining, forwarder, ttl };
    let mut r: Vec<(Peer, HpvMsg)> = Vec::new();
    let mut i: usize = 0;
    while i < targets.len()
        invariant
            targets@.no_duplicates(),
            msg == (HpvMsg::ForwardJoin { joining, forwarder, ttl }),
            i <= targets@.len(),
            addressees(r@).no_duplicates(),
            forall|x: Peer| #[trigger] addressees(r@).contains(x) <==> exists|j: int|
                0 <= j < i && targets@[j] == x && x != skip,
            forall|k: int| 0 <= k < r@.len() ==> #[trigger] r@[k].1 == msg,
        decreases targets@.len() - i,
    {
        let q = targets[i];
        if q != skip {
            let ghost before = r@;
            r.push((q, HpvMsg::ForwardJoin { joining, forwarder, ttl }));
            proof {
                assert forall|k: int| 0 <= k < r@.len() implies #[trigger] r@[k].1 == msg by {
                    if k < before.len() {
                        assert(r@[k] == before[k]);
                    } else {
                        assert(r@.len() == before.len() + 1);
                        assert(r@[k].0 == q);
                        assert(r@[k].1 == HpvMsg::ForwardJoin { joining, forwarder, ttl });
                    }
                }
                let a = addressees(r@);
                let b = addressees(before);
                assert(a =~= b.push(q));
                assert(!b.contains(q)) by {
                    if b.contains(q) {
                        let j = choose|j: int| 0 <= j < i && targets@[j] == q && q != skip;
                        assert(targets@[j] == targets@[i as int]);
                    }
                }
                assert forall|x: Peer| #[trigger] a.contains(x) <==> exists|j: int|
                    0 <= j < i + 1 && targets@[j] == x && x != skip by {
                    if a.contains(x) && x != q {
                        let k = choose|k: int| 0 <= k < a.len() && a[k] == x;
                        assert(b[k] == x);
                        assert(b.contains(x));
                    }
                    if exists|j: int| 0 <= j < i + 1 && targets@[j] == x && x != skip {
                        if x != q {
                            let j = choose|j: int| 0 <= j < i + 1 && targets@[j] == x && x != skip;
                            assert(j < i);
                            assert(b.contains(x));
                            let k = choose|k: int| 0 <= k < b.len() && b[k] == x;
                            assert(a[k] == x);
                        } else {
                            assert(a[a.len() - 1] == q);
                        }
                    }
                }
                assert forall|a1: int, b1: int| 0 <= a1 < a.len() && 0 <= b1 < a.len() && a1 != b1
                    implies a[a1] != a[b1] by {
                    if a1 == a.len() - 1 {
                        assert(b.contains(a[b1]));
                    }
                    if b1 == a.len() - 1 {
                        assert(b.contains(a[a1]));
                    }
                }
            }
        } else {
            proof {
                assert forall|x: Peer| #[trigger] addressees(r@).contains(x) <==> exists|j: int|
                    0 <= j < i + 1 && targets@[j] == x && x != skip by {
                    if exists|j: int| 0 <= j < i + 1 && targets@[j] == x && x != skip {
                        let j = choose|j: int| 0 <= j < i + 1 && targets@[j] == x && x != skip;
                        assert(j < i);
                    }
                }
            }
        }
        i += 1;
    }
    proof {
        assert forall|x: Peer| #[trigger] addressees(r@).to_set().contains(x) <==> targets@.to_set().remove(
            skip,
        ).contains(x) by {
            if targets@.to_set().remove(skip).contains(x) {
                let j = choose|j: int| 0 <= j < targets@.len() && targets@[j] == x;
            }
        }
        assert(addressees(r@).to_set() =~= targets@.to_set().remove(skip));
    }
    r
}

/// The peers of `a` followed by those of `b` that `a` lacks.
fn union_of(a: &Vec<Peer>, b: &Vec<Peer>) -> (r: Vec<Peer>)
    requires
        a@.no_duplicates(),
        b@.no_duplicates(),
    ensures
        r@.no_duplicates(),
        r@.to_set() == a@.to_set().union(b@.to_set()),
{
    proof {
        lemma_peer_eq();
    }
    let mut r = copy_peers(a);
    let mut i: usize = 0;
    while i < b.len()
        invariant
            vstd::laws_eq::obeys_concrete_eq::<Peer>(),
            i <= b@.len(),
            r@.no_duplicates(),
            forall|x: Peer| #[trigger] r@.contains(x) <==> (a@.contains(x) || exists|j: int|
                0 <= j < i && b@[j] == x),
        decreases b@.len() - i,
    {
        let x = b[i];
        if position(&r, &x).is_none() {
            let ghost before = r@;
            r.push(x);
            proof {
                assert forall|p: int, q: int| 0 <= p < r@.len() && 0 <= q < r@.len() && p != q
                    implies r@[p] != r@[q] by {
                    if p == r@.len() - 1 {
                        assert(before.contains(r@[q]));
                    }
                    if q == r@.len() - 1 {
                        assert(before.contains(r@[p]));
                    }
                }
                assert forall|y: Peer| #[trigger] r@.contains(y) <==> (a@.contains(y) || exists|j: int|
                    0 <= j < i + 1 && b@[j] == y) by {
                    if r@.contains(y) && y != x {
                        let k = choose|k: int| 0 <= k < r@.len() && r@[k] == y;
                        assert(before[k] == y);
                        assert(before.contains(y));
                    }
                    if a@.contains(y) || exists|j: int| 0 <= j < i && b@[j] == y {
                        assert(before.contains(y));
                        let k = choose|k: int| 0 <= k < before.len() && before[k] == y;
                        assert(r@[k] == y);
                    }
                    if y == x {
                        assert(r@[r@.len() - 1] == y);
                    }
                }
            }
        } else {
            proof {
                assert forall|y: Peer| #[trigger] r@.contains(y) <==> (a@.contains(y) || exists|j: int|
                    0 <= j < i + 1 && b@[j] == y) by {
                    if exists|j: int| 0 <= j < i + 1 && b@[j] == y {
                        let j = choose|j: int| 0 <= j < i + 1 && b@[j] == y;
                        if j == i {
                            assert(r@.contains(x));
                        }
                    }
                }
            }
        }
        i += 1;
    }
    proof {
        assert forall|y: Peer| #[trigger] r@.to_set().contains(y) <==> a@.to_set().union(
            b@.to_set(),
        ).contains(y) by {
            if b@.to_set().contains(y) {
                let j = choose|j: int| 0 <= j < b@.len() && b@[j] == y;
            }
        }
        assert(r@.to_set() =~= a@.to_set().union(b@.to_set()));
    }
    r
}

/// A copy of `peers`.
fn copy_peers(peers: &Vec<Peer>) -> (r: Vec<Peer>)
    ensures
        r@ == peers@,
{
    let mut r: Vec<Peer> = Vec::new();
    let mut i: usize = 0;
    while i < peers.len()
        invariant
            i <= peers@.len(),
            r@ == peers@.subrange(0, i as int),
        decreases peers@.len() - i,
    {
        r.push(peers[i]);
        i += 1;
        proof {
            assert(r@ =~= peers@.subrange(0, i as int));
        }
    }
    proof {
        assert(r@ =~= peers@);
    }
    r
}

/// Offers each of `peers`, in order, to `view`.
fn add_all(view: &mut BoundedSet<Peer>, peers: &Vec<Peer>)
    requires
        old(view).wf(),
    ensures
        final(view).wf(),
        final(view).limit() == old(view).limit(),
        old(view)@.subset_of(final(view)@),
        final(view)@.subset_of(old(view)@.union(peers@.to_set())),
        old(view)@.len() < old(view).limit() ==> (peers@.to_set().subset_of(final(view)@)
            || final(view)@.len() == final(view).limit()),
{
    let mut i: usize = 0;
    while i < peers.len()
        invariant
            view.wf(),
            view.limit() == old(view).limit(),
            i <= peers@.len(),
            old(view)@.subset_of(view@),
            view@.subset_of(old(view)@.union(peers@.to_set())),
            old(view)@.len() < old(view).limit() ==> view@.len() <= view.limit(),
            old(view)@.len() < old(view).limit() && view@.len() < view.limit() ==> forall|j: int|
                0 <= j < i ==> view@.contains(#[trigger] peers@[j]),
        decreases peers@.len() - i,
    {
        let ghost before = view@;
        proof {
            assert(peers@.to_set().contains(peers@[i as int]));
            view.lemma_finite();
        }
        view.insert(peers[i]);
        proof {
            if view@.len() < view.limit() {
                vstd::set_lib::lemma_len_subset(before, view@);
            }
        }
        i += 1;
    }
    proof {
        assert forall|x: Peer| old(view)@.len() < old(view).limit() && view@.len() < view.limit()
            && #[trigger] peers@.to_set().contains(x) implies view@.contains(x) by {
            let j = choose|j: int| 0 <= j < peers@.len() && peers@[j] == x;
        }
    }
}

} // verus!
