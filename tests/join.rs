use hyparview::hpv::config::Config;
use hyparview::hpv::message::HpvMsg;
use hyparview::hpv::peer::Peer;
use hyparview::hpv::HyParViewActor;

fn peer(id: u64) -> Peer {
    Peer { id }
}

/// The messages among `sends` that are addressed to `to`, in order.
fn inbox(sends: &Vec<(Peer, HpvMsg)>, to: Peer) -> Vec<HpvMsg> {
    sends.iter().filter(|(p, _)| *p == to).map(|(_, m)| m.clone()).collect()
}

#[test]
fn initiate_join() {
    let mut hpv = HyParViewActor::default();
    let (bootstrap, mock_self) = (peer(1), peer(2));
    let sends = hpv.handle_init_join(mock_self, bootstrap);
    assert_eq!(inbox(&sends, bootstrap), vec![HpvMsg::Join(mock_self)]);
}

#[test]
fn broadcast_to_active_view() {
    let (actv_probe1, actv_probe2, pasv_probe1, join_probe, mock_self) =
        (peer(1), peer(2), peer(3), peer(4), peer(5));

    let mut hpv = HyParViewActor::default();
    hpv.add_active_node(actv_probe1)
        .add_active_node(actv_probe2)
        .add_passive_node(pasv_probe1);

    let out = hpv.handle_join(mock_self, join_probe);

    let forward_join = HpvMsg::ForwardJoin {
        joining: join_probe,
        forwarder: mock_self,
        ttl: Config::default().active_rwl,
    };
    assert_eq!(inbox(&out.sends, actv_probe1), vec![forward_join.clone()]);
    assert_eq!(inbox(&out.sends, actv_probe2), vec![forward_join.clone()]);
    assert!(inbox(&out.sends, pasv_probe1).is_empty());
}

#[test]
fn make_room_for_joins() {
    let (actv_probe1, actv_probe2, pasv_probe, join_probe, mock_self) =
        (peer(1), peer(2), peer(3), peer(4), peer(5));

    let mut hpv = HyParViewActor::default();
    hpv.add_active_node(actv_probe1)
        .add_active_node(actv_probe2)
        .add_passive_node(pasv_probe)
        .change_config(|mut c| {
            c.max_active_view_size = 2;
            c
        });

    let out = hpv.handle_join(mock_self, join_probe);

    assert!(inbox(&out.sends, pasv_probe).is_empty());

    assert_eq!(hpv.active_view.len(), 2);
    assert!(hpv.active_view.contains(&join_probe));
    // Either of the previously active peers should still be there
    let (live_probe, dead_probe) = if hpv.active_view.contains(&actv_probe1) {
        (actv_probe1, actv_probe2)
    } else {
        (actv_probe2, actv_probe1)
    };

    assert!(hpv.active_view.contains(&live_probe));
    assert!(hpv.passive_view.contains(&dead_probe));
    assert!(hpv.passive_view.contains(&pasv_probe));

    assert_eq!(inbox(&out.sends, dead_probe), vec![HpvMsg::Disconnect(mock_self)]);
    assert_eq!(
        inbox(&out.sends, live_probe),
        vec![HpvMsg::ForwardJoin {
            joining: join_probe,
            forwarder: mock_self,
            ttl: Config::default().active_rwl,
        }]
    );
}

#[test]
fn include_joiner_at_ttl0() {
    let (actv_probe, join_probe, mock_self) = (peer(1), peer(2), peer(3));
    let mut hpv = HyParViewActor::default();
    hpv.add_active_node(actv_probe).change_config(|mut c| {
        c.max_active_view_size = 1;
        c
    });

    hpv.handle_forward_join(mock_self, join_probe, join_probe, 0);

    assert!(hpv.active_view.contains(&join_probe));
}

#[test]
fn include_joiner_when_active_view_empty() {
    let (join_probe, mock_self) = (peer(1), peer(2));
    let mut hpv = HyParViewActor::default();

    hpv.handle_forward_join(mock_self, join_probe, join_probe, 1);

    assert!(hpv.active_view.contains(&join_probe));
}

#[test]
fn continue_forwarding_until_ttl0() {
    let (forw_probe, actv_probe, join_probe, mock_self) = (peer(1), peer(2), peer(3), peer(4));
    let mut hpv = HyParViewActor::default();
    // non-empty active view
    hpv.add_active_node(forw_probe).add_active_node(actv_probe);

    // Don't include the node of a ForwardJoin when TTL != passive_rwl
    let out = hpv.handle_forward_join(
        mock_self,
        join_probe,
        actv_probe,
        Config::default().passive_rwl + 1,
    );
    assert_eq!(
        inbox(&out.sends, forw_probe),
        vec![HpvMsg::ForwardJoin {
            joining: join_probe,
            forwarder: mock_self,
            ttl: Config::default().passive_rwl,
        }]
    );
    assert_eq!(hpv.passive_view.len(), 0);

    // Include the node of a ForwardJoin when TTL == passive_rwl
    let out = hpv.handle_forward_join(
        mock_self,
        join_probe,
        actv_probe,
        Config::default().passive_rwl,
    );
    assert_eq!(
        inbox(&out.sends, forw_probe),
        vec![HpvMsg::ForwardJoin {
            joining: join_probe,
            forwarder: mock_self,
            ttl: Config::default().passive_rwl - 1,
        }]
    );
    assert!(hpv.passive_view.contains(&join_probe));
}
