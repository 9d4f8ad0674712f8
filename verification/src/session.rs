//! What the client decides on the compositor's announcements: which globals
//! to bind, at which version, and when the surface is configured.
use vstd::prelude::*;

use crate::text::same_text;

verus! {

/// The globals of the compositor that the client binds.
#[derive(Debug, Clone, Copy, PartialEq, Eq, Structural)]
pub enum GlobalKind {
    /// `wl_compositor`, which makes surfaces.
    Compositor,
    /// `zwlr_layer_shell_v1`, which places surfaces in layers of the desktop.
    LayerShell,
    /// `wl_shm`, which shares memory buffers.
    Shm,
}

/// A request to bind the global numbered `name` as `kind` at `version`.
#[derive(Debug, Clone, Copy, PartialEq, Eq, Structural)]
pub struct BindRequest {
    pub kind: GlobalKind,
    pub name: u32,
    pub version: u32,
}

/// The highest version of `wl_compositor` that the client speaks.
pub const COMPOSITOR_MAX_VERSION: u32 = 4;

pub open spec fn compositor_interface() -> Seq<char> {
    seq!['w', 'l', '_', 'c', 'o', 'm', 'p', 'o', 's', 'i', 't', 'o', 'r']
}

pub open spec fn layer_shell_interface() -> Seq<char> {
    seq![
        'z', 'w', 'l', 'r', '_', 'l', 'a', 'y', 'e', 'r', '_', 's', 'h', 'e', 'l', 'l', '_', 'v',
        '1',
    ]
}

pub open spec fn shm_interface() -> Seq<char> {
    seq!['w', 'l', '_', 's', 'h', 'm']
}

pub open spec fn min_u32(a: u32, b: u32) -> u32 {
    if a <= b {
        a
    } else {
        b
    }
}

/// What the client binds when the registry announces the global `name` of
/// `interface` at `version`: the compositor at the lower of its version and
/// 4, the layer shell and shared memory at version 1, nothing else.
pub open spec fn bind_for(name: u32, interface: Seq<char>, version: u32) -> Option<BindRequest> {
    if interface == compositor_interface() {
        Some(
            BindRequest {
                kind: GlobalKind::Compositor,
                name,
                version: min_u32(version, COMPOSITOR_MAX_VERSION),
            },
        )
    } else if interface == layer_shell_interface() {
        Some(BindRequest { kind: GlobalKind::LayerShell, name, version: 1 })
    } else if interface == shm_interface() {
        Some(BindRequest { kind: GlobalKind::Shm, name, version: 1 })
    } else {
        None
    }
}

/// The bind request for a global that the registry announces, where the
/// client uses that interface.
pub fn bind_request(name: u32, interface: &str, version: u32) -> (r: Option<BindRequest>)
    ensures
        r == bind_for(name, interface@, version),
{
    proof {
        reveal_strlit("wl_compositor");
        reveal_strlit("zwlr_layer_shell_v1");
        reveal_strlit("wl_shm");
        assert("wl_compositor"@ =~= compositor_interface());
        assert("zwlr_layer_shell_v1"@ =~= layer_shell_interface());
        assert("wl_shm"@ =~= shm_interface());
    }
    if same_text(interface, "wl_compositor") {
        let v = if version < COMPOSITOR_MAX_VERSION {
            version
        } else {
            COMPOSITOR_MAX_VERSION
        };
        Some(BindRequest { kind: GlobalKind::Compositor, name, version: v })
    } else if same_text(interface, "zwlr_layer_shell_v1") {
        Some(BindRequest { kind: GlobalKind::LayerShell, name, version: 1 })
    } else if same_text(interface, "wl_shm") {
        Some(BindRequest { kind: GlobalKind::Shm, name, version: 1 })
    } else {
        None
    }
}

/// The client never binds a global at a version above what it speaks: 4 for
/// the compositor, 1 for the others.
pub proof fn lemma_bound_version_capped(name: u32, interface: Seq<char>, version: u32)
    ensures
        bind_for(name, interface, version) matches Some(b) ==> b.version <= version
            || b.kind != GlobalKind::Compositor,
        bind_for(name, interface, version) matches Some(b) ==> b.version <= COMPOSITOR_MAX_VERSION,
        bind_for(name, interface, version) matches Some(b) ==> b.name == name,
{
}

/// Whether the layer surface has been configured by the compositor.
pub struct SurfaceState {
    configured: bool,
}

impl View for SurfaceState {
    type V = bool;

    closed spec fn view(&self) -> bool {
        self.configured
    }
}

impl SurfaceState {
    /// A surface that the compositor has not configured yet.
    pub fn new() -> (r: SurfaceState)
        ensures
            !r@,
    {
        SurfaceState { configured: false }
    }

    /// Records the compositor's configure event `serial`; returns the serial
    /// that the client acknowledges, which is that one.
    pub fn configure(&mut self, serial: u32) -> (ack: u32)
        ensures
            final(self)@,
            ack == serial,
    {
        self.configured = true;
        serial
    }

    /// Whether a configure event has arrived, so that the surface may be drawn.
    pub fn is_configured(&self) -> (r: bool)
        ensures
            r == self@,
    {
        self.configured
    }
}

/// What the compositor tells a layer surface: a configure event with its
/// serial, or anything else.
#[derive(Debug, Clone, Copy, PartialEq, Eq, Structural)]
pub enum LayerSurfaceEvent {
    Configure(u32),
    Other,
}

/// Whether the surface is configured after `event`, having been so or not
/// before: a configure event configures it, nothing unconfigures it.
pub open spec fn configured_after_event(configured: bool, event: LayerSurfaceEvent) -> bool {
    configured || event is Configure
}

/// Whether the surface is configured after the events `events`, in order.
pub open spec fn configured_after(configured: bool, events: Seq<LayerSurfaceEvent>) -> bool
    decreases events.len(),
{
    if events.len() == 0 {
        configured
    } else {
        configured_after_event(configured_after(configured, events.drop_last()), events.last())
    }
}

impl SurfaceState {
    /// Handles an event of the layer surface: a configure event marks the
    /// surface configured and gives the serial to acknowledge; any other
    /// event changes nothing.
    pub fn handle(&mut self, event: LayerSurfaceEvent) -> (ack: Option<u32>)
        ensures
            final(self)@ == configured_after_event(old(self)@, event),
            ack == match event {
                LayerSurfaceEvent::Configure(serial) => Some(serial),
                LayerSurfaceEvent::Other => None,
            },
    {
        match event {
            LayerSurfaceEvent::Configure(serial) => Some(self.configure(serial)),
            LayerSurfaceEvent::Other => None,
        }
    }
}

/// A configured surface stays configured, whatever events follow.
pub proof fn lemma_configured_stays(events: Seq<LayerSurfaceEvent>)
    ensures
        configured_after(true, events),
    decreases events.len(),
{
    if events.len() > 0 {
        lemma_configured_stays(events.drop_last());
    }
}

/// A surface that was not configured becomes configured exactly when some
/// event is a configure event.
pub proof fn lemma_configured_iff_configure_event(events: Seq<LayerSurfaceEvent>)
    ensures
        configured_after(false, events) <==> exists|i: int|
            0 <= i < events.len() && (#[trigger] events[i]) is Configure,
    decreases events.len(),
{
    if events.len() > 0 {
        let prev = events.drop_last();
        lemma_configured_iff_configure_event(prev);
        if configured_after(false, prev) {
            let i = choose|i: int| 0 <= i < prev.len() && (#[trigger] prev[i]) is Configure;
            assert(events[i] == prev[i]);
        }
        if exists|i: int| 0 <= i < events.len() && (#[trigger] events[i]) is Configure {
            let i = choose|i: int| 0 <= i < events.len() && (#[trigger] events[i]) is Configure;
            if i < prev.len() {
                assert(prev[i] == events[i]);
            }
        }
    }
}

/// Which of the globals the client uses are bound.
pub struct BoundSet {
    pub compositor: bool,
    pub layer_shell: bool,
    pub shm: bool,
}

/// The globals bound after binding one of `kind`.
pub open spec fn with_bound(b: BoundSet, kind: GlobalKind) -> BoundSet {
    match kind {
        GlobalKind::Compositor => BoundSet { compositor: true, ..b },
        GlobalKind::LayerShell => BoundSet { layer_shell: true, ..b },
        GlobalKind::Shm => BoundSet { shm: true, ..b },
    }
}

/// The globals bound after binding globals of `kinds`, in order.
pub open spec fn bound_after(b: BoundSet, kinds: Seq<GlobalKind>) -> BoundSet
    decreases kinds.len(),
{
    if kinds.len() == 0 {
        b
    } else {
        with_bound(bound_after(b, kinds.drop_last()), kinds.last())
    }
}

/// Every global bound in `a` is bound in `b`.
pub open spec fn keeps_bound(a: BoundSet, b: BoundSet) -> bool {
    &&& a.compositor ==> b.compositor
    &&& a.layer_shell ==> b.layer_shell
    &&& a.shm ==> b.shm
}

/// The bound globals of the client: the compositor, the layer shell and the
/// shared memory, each once the registry has announced it.
pub struct Globals<C, L, S> {
    compositor: Option<C>,
    layer_shell: Option<L>,
    shm: Option<S>,
}

impl<C, L, S> View for Globals<C, L, S> {
    type V = (Option<C>, Option<L>, Option<S>);

    closed spec fn view(&self) -> (Option<C>, Option<L>, Option<S>) {
        (self.compositor, self.layer_shell, self.shm)
    }
}

/// Which globals are bound in `g`.
pub open spec fn bound_set<C, L, S>(g: (Option<C>, Option<L>, Option<S>)) -> BoundSet {
    BoundSet { compositor: g.0 is Some, layer_shell: g.1 is Some, shm: g.2 is Some }
}

impl<C, L, S> Globals<C, L, S> {
    /// No global bound.
    pub fn new() -> (r: Globals<C, L, S>)
        ensures
            r@ == (None::<C>, None::<L>, None::<S>),
    {
        Globals { compositor: None, layer_shell: None, shm: None }
    }

    /// Keeps `c` as the bound compositor, in place of any earlier one.
    pub fn set_compositor(&mut self, c: C)
        ensures
            final(self)@ == (Some(c), old(self)@.1, old(self)@.2),
            bound_set(final(self)@) == with_bound(bound_set(old(self)@), GlobalKind::Compositor),
    {
        self.compositor = Some(c);
    }

    /// Keeps `l` as the bound layer shell, in place of any earlier one.
    pub fn set_layer_shell(&mut self, l: L)
        ensures
            final(self)@ == (old(self)@.0, Some(l), old(self)@.2),
            bound_set(final(self)@) == with_bound(bound_set(old(self)@), GlobalKind::LayerShell),
    {
        self.layer_shell = Some(l);
    }

    /// Keeps `s` as the bound shared memory, in place of any earlier one.
    pub fn set_shm(&mut self, s: S)
        ensures
            final(self)@ == (old(self)@.0, old(self)@.1, Some(s)),
            bound_set(final(self)@) == with_bound(bound_set(old(self)@), GlobalKind::Shm),
    {
        self.shm = Some(s);
    }

    /// The bound compositor, if any.
    pub fn compositor(&self) -> (r: Option<&C>)
        ensures
            r is Some <==> self@.0 is Some,
            r matches Some(c) ==> self@.0 == Some(*c),
    {
        match &self.compositor {
            Some(c) => Some(c),
            None => None,
        }
    }

    /// The bound layer shell, if any.
    pub fn layer_shell(&self) -> (r: Option<&L>)
        ensures
            r is Some <==> self@.1 is Some,
            r matches Some(l) ==> self@.1 == Some(*l),
    {
        match &self.layer_shell {
            Some(l) => Some(l),
            None => None,
        }
    }

    /// The bound shared memory, if any.
    pub fn shm(&self) -> (r: Option<&S>)
        ensures
            r is Some <==> self@.2 is Some,
            r matches Some(s) ==> self@.2 == Some(*s),
    {
        match &self.shm {
            Some(s) => Some(s),
            None => None,
        }
    }
}

/// A bound global is never dropped, whatever is bound after it.
pub proof fn lemma_globals_never_dropped(b: BoundSet, kinds: Seq<GlobalKind>)
    ensures
        keeps_bound(b, bound_after(b, kinds)),
    decreases kinds.len(),
{
    if kinds.len() > 0 {
        lemma_globals_never_dropped(b, kinds.drop_last());
    }
}

/// Starting with nothing bound, a global is bound exactly when one of its
/// kind was bound.
pub proof fn lemma_bound_iff_announced(kinds: Seq<GlobalKind>, kind: GlobalKind)
    ensures
        ({
            let b = bound_after(BoundSet { compositor: false, layer_shell: false, shm: false }, kinds);
            (match kind {
                GlobalKind::Compositor => b.compositor,
                GlobalKind::LayerShell => b.layer_shell,
                GlobalKind::Shm => b.shm,
            }) <==> exists|i: int| 0 <= i < kinds.len() && #[trigger] kinds[i] == kind
        }),
    decreases kinds.len(),
{
    if kinds.len() > 0 {
        let prev = kinds.drop_last();
        lemma_bound_iff_announced(prev, kind);
        if exists|i: int| 0 <= i < prev.len() && #[trigger] prev[i] == kind {
            let i = choose|i: int| 0 <= i < prev.len() && #[trigger] prev[i] == kind;
            assert(kinds[i] == prev[i]);
        }
        if exists|i: int| 0 <= i < kinds.len() && #[trigger] kinds[i] == kind {
            let i = choose|i: int| 0 <= i < kinds.len() && #[trigger] kinds[i] == kind;
            if i < prev.len() {
                assert(prev[i] == kinds[i]);
            }
        }
    }
}

/// The client binds only the three interfaces it uses, each under its own
/// exact name: `wl_compositor` as the compositor, at the lower of the
/// announced version and 4; `zwlr_layer_shell_v1` as the layer shell and
/// `wl_shm` as shared memory, at version 1. Any other interface, such as
/// `wl_subcompositor`, is not bound.
pub proof fn lemma_binds_only_its_interfaces(name: u32, interface: Seq<char>, version: u32)
    ensures
        bind_for(name, interface, version) is None <==> (interface != seq![
            'w', 'l', '_', 'c', 'o', 'm', 'p', 'o', 's', 'i', 't', 'o', 'r',
        ] && interface != seq![
            'z', 'w', 'l', 'r', '_', 'l', 'a', 'y', 'e', 'r', '_', 's', 'h', 'e', 'l', 'l', '_', 'v', '1',
        ] && interface != seq!['w', 'l', '_', 's', 'h', 'm']),
        interface == seq!['w', 'l', '_', 'c', 'o', 'm', 'p', 'o', 's', 'i', 't', 'o', 'r']
            ==> bind_for(name, interface, version) == Some(
            BindRequest {
                kind: GlobalKind::Compositor,
                name,
                version: if version <= 4 {
                    version
                } else {
                    4
                },
            },
        ),
        interface == seq![
            'z', 'w', 'l', 'r', '_', 'l', 'a', 'y', 'e', 'r', '_', 's', 'h', 'e', 'l', 'l', '_', 'v', '1',
        ] ==> bind_for(name, interface, version) == Some(
            BindRequest { kind: GlobalKind::LayerShell, name, version: 1 },
        ),
        interface == seq!['w', 'l', '_', 's', 'h', 'm'] ==> bind_for(name, interface, version)
            == Some(BindRequest { kind: GlobalKind::Shm, name, version: 1 }),
{
}

} // verus!
