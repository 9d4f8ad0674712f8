use waygraph::session::{
    bind_request, BindRequest, GlobalKind, Globals, LayerSurfaceEvent, SurfaceState,
};

#[test]
fn binds_compositor_at_most_version_four() {
    assert_eq!(
        bind_request(1, "wl_compositor", 6),
        Some(BindRequest { kind: GlobalKind::Compositor, name: 1, version: 4 })
    );
    assert_eq!(
        bind_request(2, "wl_compositor", 3),
        Some(BindRequest { kind: GlobalKind::Compositor, name: 2, version: 3 })
    );
}

#[test]
fn binds_layer_shell_and_shm_at_version_one() {
    assert_eq!(
        bind_request(7, "zwlr_layer_shell_v1", 4),
        Some(BindRequest { kind: GlobalKind::LayerShell, name: 7, version: 1 })
    );
    assert_eq!(
        bind_request(3, "wl_shm", 2),
        Some(BindRequest { kind: GlobalKind::Shm, name: 3, version: 1 })
    );
}

#[test]
fn ignores_other_globals() {
    assert_eq!(bind_request(4, "wl_seat", 7), None);
    assert_eq!(bind_request(5, "wl_shm_pool", 1), None);
    assert_eq!(bind_request(6, "", 1), None);
}

#[test]
fn configure_is_acknowledged_with_its_serial() {
    let mut s = SurfaceState::new();
    assert!(!s.is_configured());
    assert_eq!(s.configure(77), 77);
    assert!(s.is_configured());
}

#[test]
fn only_configure_events_configure_and_nothing_unconfigures() {
    let mut s = SurfaceState::new();
    assert_eq!(s.handle(LayerSurfaceEvent::Other), None);
    assert!(!s.is_configured());
    assert_eq!(s.handle(LayerSurfaceEvent::Configure(9)), Some(9));
    assert!(s.is_configured());
    assert_eq!(s.handle(LayerSurfaceEvent::Other), None);
    assert!(s.is_configured());
    assert_eq!(s.handle(LayerSurfaceEvent::Configure(10)), Some(10));
    assert!(s.is_configured());
}

#[test]
fn bound_globals_stay_bound() {
    let mut g: Globals<u8, &str, bool> = Globals::new();
    assert_eq!(g.compositor(), None);
    assert_eq!(g.layer_shell(), None);
    assert_eq!(g.shm(), None);
    g.set_shm(true);
    assert_eq!(g.shm(), Some(&true));
    assert_eq!(g.compositor(), None);
    g.set_compositor(3);
    g.set_layer_shell("layer");
    g.set_compositor(4);
    assert_eq!(g.compositor(), Some(&4));
    assert_eq!(g.layer_shell(), Some(&"layer"));
    assert_eq!(g.shm(), Some(&true));
}
