use hyparview::bounded_set::BoundedSet;
use hyparview::hpv::config::Config;
use hyparview::hpv::views::Views;
use hyparview::hpv::HyParViewActor;

#[test]
fn inspect_allow_inspections() {
    let hpv = HyParViewActor::default();
    assert_eq!(
        hpv.handle_inspect(),
        Views {
            active_view: BoundedSet::new(Config::default().max_active_view_size),
            passive_view: BoundedSet::new(Config::default().max_passive_view_size),
        }
    );
}

#[test]
fn test_join_allow_inspections() {
    let hpv = HyParViewActor::default();
    assert_eq!(
        Views::from_hyparview(&hpv),
        Views {
            active_view: BoundedSet::new(Config::default().max_active_view_size),
            passive_view: BoundedSet::new(Config::default().max_passive_view_size)
        }
    );
}
