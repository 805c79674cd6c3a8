use std::time::Duration;

use hyparview::bounded_set::BoundedSet;
use hyparview::hpv::config::Config;
use hyparview::hpv::message::HpvMsg;
use hyparview::hpv::peer::Peer;
use hyparview::hpv::HyParViewActor;

fn node(id: u64) -> Peer {
    Peer { id }
}

/// The messages among `sends` that are addressed to `to`, in order.
fn mail(sends: &Vec<(Peer, HpvMsg)>, to: Peer) -> Vec<HpvMsg> {
    sends.iter().filter(|(p, _)| *p == to).map(|(_, m)| m.clone()).collect()
}

#[test]
fn size_never_passes_capacity() {
    let mut set: BoundedSet<u32> = BoundedSet::new(3);
    for e in 0..10u32 {
        set.insert(e);
        assert!(set.len() <= 3);
    }
    let fresh: Vec<u32> = (20..40).collect();
    set.bounded_union(&fresh, &vec![0, 1]);
    assert_eq!(set.len(), 3);
    let mut small: BoundedSet<u32> = BoundedSet::new(5);
    small.bounded_union(&vec![1, 2, 2], &Vec::new());
    assert_eq!(small.len(), 2);
}

#[test]
fn insert_into_full_set_is_refused() {
    let mut set: BoundedSet<u32> = BoundedSet::new(2);
    assert!(set.insert(1));
    assert!(set.insert(1));
    assert_eq!(set.len(), 1);
    assert!(set.insert(2));
    assert!(!set.insert(3));
    assert!(!set.insert(1));
    assert_eq!(set.len(), 2);
    assert!(!set.contains(&3));
}

#[test]
fn union_keeps_fresh_then_ordinary_then_priority() {
    let mut set: BoundedSet<u32> = BoundedSet::init(3, vec![1, 2]);
    set.bounded_union(&vec![7, 8], &vec![2]);
    assert_eq!(set.len(), 3);
    assert!(set.contains(&7) && set.contains(&8) && set.contains(&1));
    assert!(!set.contains(&2));

    // more fresh elements than room: only fresh ones stay
    let mut set: BoundedSet<u32> = BoundedSet::init(2, vec![1, 2]);
    set.bounded_union(&vec![7, 8, 9], &Vec::new());
    assert_eq!(set.len(), 2);
    assert!(!set.contains(&1) && !set.contains(&2));
}

#[test]
fn shrunk_capacity_keeps_members_and_refuses_inserts() {
    let mut set: BoundedSet<u32> = BoundedSet::init(3, vec![1, 2, 3]);
    set.set_capacity(1);
    assert_eq!(set.capacity(), 1);
    assert_eq!(set.len(), 3);
    assert!(!set.is_full());
    assert!(!set.insert(4));
    assert!(set.remove(&1) && set.remove(&2));
    assert!(set.is_full());
}

#[test]
fn samples_are_drawn_from_the_set() {
    let set: BoundedSet<u32> = BoundedSet::init(5, vec![10, 20, 30, 40, 50]);
    for _ in 0..50 {
        let one = *set.sample_one().unwrap();
        assert!(set.contains(&one));
        let some = set.sample(3);
        assert_eq!(some.len(), 3);
        for e in some.iter() {
            assert!(set.contains(e));
            assert_eq!(some.iter().filter(|x| *x == e).count(), 1);
        }
    }
    let mut all = set.elements();
    all.sort();
    assert_eq!(all, vec![10, 20, 30, 40, 50]);
}

#[test]
fn default_config_values() {
    let c = Config::default();
    assert_eq!(c.max_active_view_size, 4);
    assert_eq!(c.max_passive_view_size, 4);
    assert_eq!(c.active_rwl, 3);
    assert_eq!(c.passive_rwl, 2);
    assert_eq!(c.shuffle_rwl, 1);
    assert_eq!(c.shuffle_active, 2);
    assert_eq!(c.shuffle_passive, 2);
    assert_eq!(c.shuffle_interval, Duration::from_secs(30));
}

#[test]
fn join_ends_active_and_forwards_to_prior_members() {
    let (a, b, c, p, me) = (node(1), node(2), node(3), node(4), node(9));
    let mut hpv = HyParViewActor::default();
    hpv.add_active_view(vec![a, b, c]);
    let out = hpv.handle_join(me, p);
    assert!(hpv.active_view.contains(&p));
    assert_eq!(out.sends.len(), 3);
    for q in [a, b, c] {
        assert_eq!(
            mail(&out.sends, q),
            vec![HpvMsg::ForwardJoin { joining: p, forwarder: me, ttl: 3 }]
        );
    }
    assert!(mail(&out.sends, p).is_empty());
}

#[test]
fn join_into_single_slot_view() {
    let (a, b, me) = (node(1), node(2), node(9));
    let mut hpv = HyParViewActor::default();
    hpv.change_config(|mut c| {
        c.max_active_view_size = 1;
        c
    });
    hpv.add_active_node(a);
    let out = hpv.handle_join(me, b);
    assert!(hpv.passive_view.contains(&a));
    assert!(!hpv.active_view.contains(&a));
    assert!(hpv.active_view.contains(&b));
    assert_eq!(out.sends, vec![(a, HpvMsg::Disconnect(me))]);
}

#[test]
fn forward_join_without_hops_takes_joiner_in() {
    let (a, b, p, me) = (node(1), node(2), node(3), node(9));
    let mut hpv = HyParViewActor::default();
    hpv.change_config(|mut c| {
        c.max_active_view_size = 2;
        c
    });
    hpv.add_active_view(vec![a, b]);
    let out = hpv.handle_forward_join(me, p, a, 0);
    assert!(hpv.active_view.contains(&p));
    assert_eq!(hpv.active_view.len(), 2);
    assert_eq!(out.sends.len(), 1);
    assert_eq!(out.sends[0].1, HpvMsg::Disconnect(me));
}

#[test]
fn sole_active_disconnect_promotes_with_priority() {
    let (a, x, y, me) = (node(1), node(2), node(3), node(9));
    let mut hpv = HyParViewActor::default();
    hpv.add_active_node(a).add_passive_view(vec![x, y]);
    let sends = hpv.handle_disconnect(me, &a);
    assert_eq!(sends.len(), 1);
    let chosen = sends[0].0;
    assert_eq!(sends[0].1, HpvMsg::Neighbour { peer: me, prio: true });
    assert!(chosen == x || chosen == y);
    assert!(hpv.active_view.contains(&chosen));
    assert!(!hpv.passive_view.contains(&chosen));
    assert_eq!(hpv.active_view.len(), 1);
    assert_eq!(hpv.passive_view.len(), 1);
}

#[test]
fn unprioritised_neighbour_against_full_view_is_refused() {
    let (a, b, q, me) = (node(1), node(2), node(3), node(9));
    let mut hpv = HyParViewActor::default();
    hpv.change_config(|mut c| {
        c.max_active_view_size = 2;
        c
    });
    hpv.add_active_view(vec![a, b]);
    let out = hpv.handle_neighbour(me, q, false);
    assert_eq!(out.sends, vec![(q, HpvMsg::NeighbourReply { peer: me, accepted: false })]);
    assert_eq!(hpv.active_view.len(), 2);
    assert!(hpv.active_view.contains(&a) && hpv.active_view.contains(&b));
    assert_eq!(out.discovered, vec![q]);
}

#[test]
fn mismatched_shuffle_reply_leaves_passive_view() {
    let (p, x, y) = (node(1), node(2), node(3));
    let mut hpv = HyParViewActor::default();
    hpv.add_passive_node(p).set_shuffling(5, vec![p]);
    hpv.handle_shuffle_reply(4, vec![x]);
    hpv.handle_shuffle_reply(6, vec![x]);
    assert_eq!(hpv.passive_view.len(), 1);
    assert!(hpv.shuffling);

    // the matching reply is merged once; a duplicate is ignored
    hpv.handle_shuffle_reply(5, vec![x]);
    assert!(hpv.passive_view.contains(&x));
    assert!(!hpv.shuffling);
    assert!(hpv.offer.is_empty());
    hpv.handle_shuffle_reply(5, vec![y]);
    assert!(!hpv.passive_view.contains(&y));
}

#[test]
fn shuffle_end_point_replies_and_merges() {
    let (o, x, a1, a2, pa, pb) = (node(1), node(2), node(3), node(4), node(5), node(6));
    let mut hpv = HyParViewActor::default();
    hpv.add_active_view(vec![a1, a2]).add_passive_view(vec![pa, pb]);
    let out = hpv.handle_shuffle(7, o, vec![x], 1);
    assert_eq!(out.sends.len(), 1);
    assert_eq!(out.sends[0].0, o);
    match &out.sends[0].1 {
        HpvMsg::ShuffleReply(id, sample) => {
            assert_eq!(*id, 7);
            assert_eq!(sample.len(), 2);
            assert!(sample.contains(&pa) && sample.contains(&pb));
        }
        _ => panic!("expected a shuffle reply"),
    }
    assert!(hpv.passive_view.contains(&x));
    assert!(hpv.passive_view.contains(&o));
    assert_eq!(hpv.passive_view.len(), 4);
    assert_eq!(hpv.shuffle_id, 0);
    assert_eq!(out.discovered, vec![x]);
}

#[test]
fn shuffle_end_point_evicts_the_replied_sample_first() {
    let (o, x, a1, pa, pb) = (node(1), node(2), node(3), node(4), node(5));
    let mut hpv = HyParViewActor::default();
    hpv.add_active_view(vec![a1, o]).add_passive_view(vec![pa, pb]).change_config(|mut c| {
        c.max_passive_view_size = 2;
        c
    });
    let out = hpv.handle_shuffle(7, o, vec![x], 1);
    assert_eq!(out.sends.len(), 1);
    assert_eq!(hpv.passive_view.len(), 2);
    assert!(hpv.passive_view.contains(&x));
    assert!(!hpv.passive_view.contains(&o));
}

#[test]
fn shuffle_walk_takes_next_id() {
    let (o, a1, a2) = (node(1), node(2), node(3));
    let mut hpv = HyParViewActor::default();
    hpv.add_active_view(vec![o, a1, a2]);
    let out = hpv.handle_shuffle(7, o, vec![], 3);
    assert_eq!(hpv.shuffle_id, 1);
    assert_eq!(out.sends.len(), 1);
    assert!(out.sends[0].0 == a1 || out.sends[0].0 == a2);
    assert_eq!(
        out.sends[0].1,
        HpvMsg::Shuffle { id: 0, origin: o, exchange: vec![], ttl: 2 }
    );
}

#[test]
fn initiated_shuffle_is_recorded() {
    let (a, b, p, me) = (node(1), node(2), node(3), node(9));
    let mut hpv = HyParViewActor::default();
    hpv.add_active_view(vec![a, b]).add_passive_node(p);
    let sends = hpv.initiate_shuffle(me);
    assert!(hpv.shuffling);
    assert_eq!(hpv.shuffle_id, 1);
    match &sends[0].1 {
        HpvMsg::Shuffle { id, origin, exchange, ttl } => {
            assert_eq!(*id, 0);
            assert_eq!(*origin, me);
            assert_eq!(*ttl, 1);
            assert_eq!(exchange.len(), 2);
            assert!(exchange.contains(&p));
            assert!(!exchange.contains(&sends[0].0));
            assert_eq!(*exchange, hpv.offer);
        }
        _ => panic!("expected a shuffle"),
    }
    // the active view was not full: the passive peer is promoted
    assert_eq!(sends.len(), 2);
    assert_eq!(sends[1], (p, HpvMsg::Neighbour { peer: me, prio: false }));
    assert!(hpv.active_view.contains(&p));
}

#[test]
fn dispatch_reaches_the_handlers() {
    let (boot, me, j) = (node(1), node(9), node(2));
    let mut hpv = HyParViewActor::default();
    let out = hpv.handle(me, HpvMsg::InitiateJoin(boot));
    assert_eq!(out.sends, vec![(boot, HpvMsg::Join(me))]);
    let out = hpv.handle(me, HpvMsg::Join(j));
    assert!(out.sends.is_empty());
    assert_eq!(out.discovered, vec![j]);
    assert!(hpv.active_view.contains(&j));
    let out = hpv.handle(me, HpvMsg::Disconnect(j));
    assert!(out.sends.is_empty());
    assert_eq!(hpv.active_view.len(), 0);
}

#[test]
fn publish_single_peer() {
    let (a, b) = (node(1), node(2));
    let mut hpv = HyParViewActor::default();
    hpv.add_active_node(a);
    assert!(hpv.publish_peer(a).is_empty());
    assert_eq!(hpv.publish_peer(b), vec![b]);
    assert_eq!(hpv.publish_peers(&vec![b, b, a]), vec![b]);
}

#[test]
fn passive_offer_replaces_a_member_when_full() {
    let (a, pa, pb, x, me) = (node(1), node(2), node(3), node(4), node(9));
    let mut hpv = HyParViewActor::default();
    hpv.change_config(|mut c| {
        c.max_passive_view_size = 2;
        c
    });
    hpv.add_active_node(a).add_passive_view(vec![pa, pb]);
    hpv.add_node_to_passive_view(me, x);
    assert_eq!(hpv.passive_view.len(), 2);
    assert!(hpv.passive_view.contains(&x));
    hpv.add_node_to_passive_view(me, a);
    hpv.add_node_to_passive_view(me, me);
    assert!(!hpv.passive_view.contains(&a) && !hpv.passive_view.contains(&me));
}
