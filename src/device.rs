//! The GBM device: its surface arena, the registry of outputs, and the
//! presentation state machine of each surface.
use vstd::prelude::*;

verus! {

/// A cursor image and its hot spot, copied when the cursor is set.
#[derive(Clone, Copy, Debug, PartialEq, Eq, Structural)]
pub struct CursorImage {
    pub buffer: u32,
    pub width: u32,
    pub height: u32,
    pub hotspot_x: u32,
    pub hotspot_y: u32,
}

/// The state of one surface, kept in the device's arena.
#[derive(Clone, Copy, Debug, PartialEq, Eq, Structural)]
pub struct SurfaceState {
    /// The CRTC this surface drives.
    pub crtc: u32,
    /// Native handle of the GBM swap chain.
    pub window: u64,
    pub needs_recreation: bool,
    /// Framebuffer of a page flip that was requested and not yet acknowledged.
    pub pending_flip: Option<u32>,
    /// Framebuffer of the last acknowledged page flip.
    pub current_frame_buffer: Option<u32>,
    pub cursor: Option<CursorImage>,
    /// False once the owning handle was destroyed.
    pub alive: bool,
}

/// One registry entry: a CRTC and the arena slot of its surface.
#[derive(Clone, Copy, Debug, PartialEq, Eq, Structural)]
pub struct RegistryEntry {
    pub crtc: u32,
    pub surface: usize,
}

#[derive(Clone, Copy, Debug, PartialEq, Eq, Structural)]
pub enum GbmError {
    /// The device pointer is null.
    DeviceInvalid,
    /// The allocator refused to create the swap chain.
    SurfaceCreationFailed,
    /// A live surface is already registered for this CRTC.
    AlreadyRegistered,
}

#[derive(Clone, Copy, Debug, PartialEq, Eq, Structural)]
pub enum SwapBuffersError {
    /// The session is paused.
    TemporarilyUnavailable,
    /// A page flip is still waiting for its completion.
    AlreadySwapped,
    /// The device rejected the page flip.
    Rejected,
}

/// A page flip to be issued on the device.
#[derive(Clone, Copy, Debug, PartialEq, Eq, Structural)]
pub struct PageFlip {
    pub crtc: u32,
    pub frame_buffer: u32,
}

/// Owning handle of a surface; destroying it marks the slot dead.
#[derive(Debug)]
pub struct GbmSurface {
    device: u64,
    index: usize,
}

impl GbmSurface {
    pub closed spec fn id(&self) -> nat {
        self.index as nat
    }

    /// Raw pointer of the device the surface was created on.
    pub closed spec fn device(&self) -> u64 {
        self.device
    }

    pub fn index(&self) -> (r: usize)
        ensures
            r as nat == self.id(),
    {
        self.index
    }
}

/// Abstract value of a device.
pub ghost struct DeviceModel {
    pub native: u64,
    pub active: bool,
    pub surfaces: Seq<SurfaceState>,
    pub registry: Seq<RegistryEntry>,
}

impl DeviceModel {
    /// Registry entries point at slots of their own CRTC, CRTCs are registered
    /// at most once, and every live slot is registered.
    pub open spec fn wf(self) -> bool {
        &&& forall|j: int|
            0 <= j < self.registry.len() ==> {
                &&& self.registry[j].surface < self.surfaces.len()
                &&& self.surfaces[self.registry[j].surface as int].crtc == self.registry[j].crtc
            }
        &&& forall|j: int, k: int|
            0 <= j < self.registry.len() && 0 <= k < self.registry.len() && j != k
                ==> self.registry[j].crtc != self.registry[k].crtc
        &&& forall|i: int|
            0 <= i < self.surfaces.len() && #[trigger] self.surfaces[i].alive
                ==> exists|j: int| 0 <= j < self.registry.len() && self.registry[j].surface == i
    }

    /// Slot `i` holds a live surface.
    pub open spec fn alive(self, i: nat) -> bool {
        i < self.surfaces.len() && self.surfaces[i as int].alive
    }

    /// A live surface drives `crtc`.
    pub open spec fn live(self, crtc: u32) -> bool {
        exists|i: nat| self.alive(i) && #[trigger] self.surfaces[i as int].crtc == crtc
    }

    /// Some registry entry, live or stale, names `crtc`.
    pub open spec fn registered(self, crtc: u32) -> bool {
        exists|j: int| 0 <= j < self.registry.len() && #[trigger] self.registry[j].crtc == crtc
    }

    /// Index of the registry entry for `crtc`, if any.
    pub open spec fn entry_index(self, crtc: u32) -> Option<int> {
        if self.registered(crtc) {
            Some(choose|j: int| 0 <= j < self.registry.len() && #[trigger] self.registry[j].crtc == crtc)
        } else {
            None
        }
    }

    pub open spec fn fresh_surface(crtc: u32, window: u64) -> SurfaceState {
        SurfaceState {
            crtc,
            window,
            needs_recreation: false,
            pending_flip: None,
            current_frame_buffer: None,
            cursor: None,
            alive: true,
        }
    }

    /// The device after a surface for `crtc` with chain `window` was created:
    /// a new slot, registered under `crtc` in place of a stale entry.
    pub open spec fn create(self, crtc: u32, window: u64) -> DeviceModel {
        let entry = RegistryEntry { crtc, surface: self.surfaces.len() as usize };
        DeviceModel {
            surfaces: self.surfaces.push(Self::fresh_surface(crtc, window)),
            registry: match self.entry_index(crtc) {
                Some(j) => self.registry.update(j, entry),
                None => self.registry.push(entry),
            },
            ..self
        }
    }

    /// The outcome of a swap on slot `i`.
    pub open spec fn swap_result(self, i: nat) -> Result<(), SwapBuffersError> {
        if !self.active {
            Err(SwapBuffersError::TemporarilyUnavailable)
        } else if self.surfaces[i as int].pending_flip is Some {
            Err(SwapBuffersError::AlreadySwapped)
        } else {
            Ok(())
        }
    }

    /// The device after a successful swap of `frame_buffer` on slot `i`.
    pub open spec fn swap(self, i: nat, frame_buffer: u32) -> DeviceModel {
        let s = self.surfaces[i as int];
        DeviceModel {
            surfaces: self.surfaces.update(i as int, SurfaceState { pending_flip: Some(frame_buffer), ..s }),
            ..self
        }
    }
    /// The device with slot `i` replaced by `s`.
    pub open spec fn set(self, i: nat, s: SurfaceState) -> DeviceModel {
        DeviceModel { surfaces: self.surfaces.update(i as int, s), ..self }
    }

    /// The slot of the live surface on `crtc` (meaningful when `live(crtc)`).
    pub open spec fn live_slot(self, crtc: u32) -> nat {
        choose|i: nat| self.alive(i) && #[trigger] self.surfaces[i as int].crtc == crtc
    }

    /// The device after the completion of the page flip on `crtc` arrived:
    /// the flipped framebuffer becomes the presented one.
    pub open spec fn acknowledge(self, crtc: u32) -> DeviceModel {
        if self.live(crtc) {
            let i = self.live_slot(crtc);
            let s = self.surfaces[i as int];
            match s.pending_flip {
                Some(fb) => self.set(i, SurfaceState { current_frame_buffer: Some(fb), pending_flip: None, ..s }),
                None => self,
            }
        } else {
            self
        }
    }

    /// The device after the page flip requested on `crtc` was refused.
    pub open spec fn abandon(self, crtc: u32) -> DeviceModel {
        if self.live(crtc) {
            let i = self.live_slot(crtc);
            self.set(i, SurfaceState { pending_flip: None, ..self.surfaces[i as int] })
        } else {
            self
        }
    }
}

/// Two live surfaces on the same CRTC are the same slot.
pub proof fn lemma_live_unique(m: DeviceModel, i: nat, k: nat)
    requires
        m.wf(),
        m.alive(i),
        m.alive(k),
        m.surfaces[i as int].crtc == m.surfaces[k as int].crtc,
    ensures
        i == k,
{
    assert(m.surfaces[i as int].alive);
    assert(m.surfaces[k as int].alive);
    let ji = choose|j: int| 0 <= j < m.registry.len() && m.registry[j].surface == i;
    let jk = choose|j: int| 0 <= j < m.registry.len() && m.registry[j].surface == k;
    if ji != jk {
        assert(m.registry[ji].crtc != m.registry[jk].crtc);
    }
}

/// What has to be replayed on one output after the session resumes.
#[derive(Clone, Copy, Debug, PartialEq, Eq, Structural)]
pub struct SurfaceRestore {
    pub crtc: u32,
    /// The framebuffer to flip to again, restarting the refresh loop.
    pub flip: Option<u32>,
    /// The cursor image to set again; `None` hides the cursor.
    pub cursor: Option<CursorImage>,
}

pub open spec fn restore_of(s: SurfaceState) -> SurfaceRestore {
    SurfaceRestore { crtc: s.crtc, flip: s.current_frame_buffer, cursor: s.cursor }
}

/// A registry entry whose surface is still alive.
pub open spec fn entry_alive(m: DeviceModel) -> spec_fn(RegistryEntry) -> bool {
    |e: RegistryEntry| m.surfaces[e.surface as int].alive
}

/// The registry without its stale entries, in order.
pub open spec fn purge(m: DeviceModel) -> Seq<RegistryEntry> {
    m.registry.filter(entry_alive(m))
}

/// A surface as a resume leaves it: a flip that was in flight when the
/// session paused is abandoned, and the presented framebuffer, if any, is
/// flipped to again and that flip is the pending one.
pub open spec fn resumed_surface(s: SurfaceState) -> SurfaceState {
    if s.alive {
        SurfaceState { pending_flip: s.current_frame_buffer, ..s }
    } else {
        s
    }
}

/// A pause only makes the device unavailable; surfaces stay as they are.
pub open spec fn paused(m: DeviceModel) -> DeviceModel {
    DeviceModel { active: false, ..m }
}

pub open spec fn resumed(m: DeviceModel) -> DeviceModel {
    DeviceModel {
        active: true,
        surfaces: m.surfaces.map_values(|s: SurfaceState| resumed_surface(s)),
        registry: purge(m),
        ..m
    }
}

/// What a resume replays, one item per live registry entry, in registry order.
pub open spec fn restores(m: DeviceModel) -> Seq<SurfaceRestore> {
    purge(m).map_values(|e: RegistryEntry| restore_of(m.surfaces[e.surface as int]))
}

/// Facts on the purged prefix `registry[..n]`.
proof fn lemma_purge_prefix(m: DeviceModel, n: int)
    requires
        m.wf(),
        0 <= n <= m.registry.len(),
    ensures
        ({
            let f = m.registry.take(n).filter(entry_alive(m));
            &&& forall|a: int| #![trigger f[a]] 0 <= a < f.len() ==> exists|k: int| 0 <= k < n && f[a] == #[trigger] m.registry[k]
            &&& forall|a: int| 0 <= a < f.len() ==> m.surfaces[(#[trigger] f[a]).surface as int].alive
            &&& forall|k: int| 0 <= k < n && #[trigger] m.surfaces[m.registry[k].surface as int].alive
                ==> exists|a: int| 0 <= a < f.len() && f[a] == m.registry[k]
            &&& forall|a: int, b: int| 0 <= a < f.len() && 0 <= b < f.len() && a != b ==> f[a].crtc != f[b].crtc
        }),
    decreases n,
{
    let p = entry_alive(m);
    let f = m.registry.take(n).filter(p);
    if n == 0 {
        reveal(Seq::filter);
        assert(m.registry.take(0).len() == 0);
        assert(f.len() == 0);
    } else {
        lemma_purge_prefix(m, n - 1);
        let g = m.registry.take(n - 1).filter(p);
        let e = m.registry[n - 1];
        assert(m.registry.take(n) =~= m.registry.take(n - 1).push(e));
        m.registry.take(n - 1).lemma_filter_push(e, p);
        if p(e) {
            assert(f == g.push(e));
            assert forall|a: int| #![trigger f[a]] 0 <= a < f.len() implies exists|k: int| 0 <= k < n && f[a] == #[trigger] m.registry[k] by {
                if a < g.len() {
                    let k = choose|k: int| 0 <= k < n - 1 && g[a] == #[trigger] m.registry[k];
                    assert(f[a] == m.registry[k]);
                } else {
                    assert(f[a] == m.registry[n - 1]);
                }
            }
            assert forall|k: int| 0 <= k < n && #[trigger] m.surfaces[m.registry[k].surface as int].alive
                implies exists|a: int| 0 <= a < f.len() && f[a] == m.registry[k] by {
                if k < n - 1 {
                    let a = choose|a: int| 0 <= a < g.len() && g[a] == m.registry[k];
                    assert(f[a] == m.registry[k]);
                } else {
                    assert(f[g.len() as int] == m.registry[k]);
                }
            }
            assert forall|a: int, b: int| 0 <= a < f.len() && 0 <= b < f.len() && a != b
                implies f[a].crtc != f[b].crtc by {
                if a < g.len() && b < g.len() {
                    assert(f[a] == g[a] && f[b] == g[b]);
                } else if a < g.len() {
                    let k = choose|k: int| 0 <= k < n - 1 && g[a] == #[trigger] m.registry[k];
                    assert(f[a] == m.registry[k]);
                    assert(f[b] == m.registry[n - 1]);
                } else {
                    let k = choose|k: int| 0 <= k < n - 1 && g[b] == #[trigger] m.registry[k];
                    assert(f[b] == m.registry[k]);
                    assert(f[a] == m.registry[n - 1]);
                }
            }
        } else {
            assert(f == g);
            assert forall|a: int| #![trigger f[a]] 0 <= a < f.len() implies exists|k: int| 0 <= k < n && f[a] == #[trigger] m.registry[k] by {
                let k = choose|k: int| 0 <= k < n - 1 && g[a] == #[trigger] m.registry[k];
            }
            assert forall|k: int| 0 <= k < n && #[trigger] m.surfaces[m.registry[k].surface as int].alive
                implies exists|a: int| 0 <= a < f.len() && f[a] == m.registry[k] by {
                if k == n - 1 {
                    assert(!p(e));
                }
            }
        }
    }
}

/// A resume keeps the device well formed.
pub proof fn lemma_resumed_wf(m: DeviceModel)
    requires
        m.wf(),
    ensures
        resumed(m).wf(),
{
    let n = resumed(m);
    lemma_purge_prefix(m, m.registry.len() as int);
    assert(m.registry.take(m.registry.len() as int) =~= m.registry);
    let f = purge(m);
    assert forall|j: int| 0 <= j < n.registry.len() implies {
        &&& n.registry[j].surface < n.surfaces.len()
        &&& n.surfaces[n.registry[j].surface as int].crtc == n.registry[j].crtc
    } by {
        let k = choose|k: int| 0 <= k < m.registry.len() && f[j] == #[trigger] m.registry[k];
    }
    assert forall|i: int| 0 <= i < n.surfaces.len() && #[trigger] n.surfaces[i].alive
        implies exists|j: int| 0 <= j < n.registry.len() && n.registry[j].surface == i by {
        assert(m.surfaces[i].alive);
        let k = choose|k: int| 0 <= k < m.registry.len() && m.registry[k].surface == i;
        assert(m.surfaces[m.registry[k].surface as int].alive);
        let a = choose|a: int| 0 <= a < f.len() && f[a] == m.registry[k];
        assert(n.registry[a].surface == i);
    }
}

/// Creating a surface on a CRTC without a live surface keeps the device well
/// formed, and leaves that CRTC live.
pub proof fn lemma_create_wf(m: DeviceModel, crtc: u32, window: u64)
    requires
        m.wf(),
        !m.live(crtc),
        m.surfaces.len() < usize::MAX,
    ensures
        m.create(crtc, window).wf(),
        m.create(crtc, window).live(crtc),
{
    let n = m.create(crtc, window);
    let index = m.surfaces.len();
    assert(n.alive(index) && n.surfaces[index as int].crtc == crtc);
    if let Some(j) = m.entry_index(crtc) {
        assert(m.registry[j].crtc == crtc);
        assert forall|i: int| 0 <= i < n.surfaces.len() && #[trigger] n.surfaces[i].alive
            implies exists|k: int| 0 <= k < n.registry.len() && n.registry[k].surface == i by {
            if i == index {
                assert(n.registry[j].surface == i);
            } else {
                assert(m.surfaces[i].alive);
                let k = choose|k: int| 0 <= k < m.registry.len() && m.registry[k].surface == i;
                if k == j {
                    assert(m.alive(i as nat) && m.surfaces[i].crtc == crtc);
                }
                assert(n.registry[k].surface == i);
            }
        }
    } else {
        assert forall|k: int| 0 <= k < m.registry.len() implies m.registry[k].crtc != crtc by {
            if m.registry[k].crtc == crtc {
                assert(m.registered(crtc));
            }
        }
        assert forall|i: int| 0 <= i < n.surfaces.len() && #[trigger] n.surfaces[i].alive
            implies exists|k: int| 0 <= k < n.registry.len() && n.registry[k].surface == i by {
            if i == index {
                assert(n.registry[m.registry.len() as int].surface == i);
            } else {
                assert(m.surfaces[i].alive);
                let k = choose|k: int| 0 <= k < m.registry.len() && m.registry[k].surface == i;
                assert(n.registry[k].surface == i);
            }
        }
    }
}

/// The device after `create_surface` was called for each CRTC of `crtcs` in
/// turn, the allocator giving `windows[k]` for `crtcs[k]`. A call on a live
/// CRTC changes nothing.
pub open spec fn create_all(m: DeviceModel, crtcs: Seq<u32>, windows: Seq<u64>) -> DeviceModel
    decreases crtcs.len(),
{
    if crtcs.len() == 0 || windows.len() == 0 {
        m
    } else {
        let next = if m.live(crtcs[0]) { m } else { m.create(crtcs[0], windows[0]) };
        create_all(next, crtcs.drop_first(), windows.drop_first())
    }
}

/// After surfaces were created for a sequence of CRTCs, each of them has
/// exactly one live surface, so creating another surface on any of them
/// fails as already registered.
pub proof fn lemma_create_all(m: DeviceModel, crtcs: Seq<u32>, windows: Seq<u64>)
    requires
        m.wf(),
        windows.len() == crtcs.len(),
        m.surfaces.len() + crtcs.len() < usize::MAX,
    ensures
        create_all(m, crtcs, windows).wf(),
        forall|c: u32| m.live(c) ==> create_all(m, crtcs, windows).live(c),
        forall|k: int| #![trigger crtcs[k]] 0 <= k < crtcs.len() ==> {
            let f = create_all(m, crtcs, windows);
            &&& f.live(crtcs[k])
            &&& forall|i: nat, i2: nat|
                f.alive(i) && f.alive(i2) && f.surfaces[i as int].crtc == crtcs[k]
                    && f.surfaces[i2 as int].crtc == crtcs[k] ==> i == i2
        },
    decreases crtcs.len(),
{
    if crtcs.len() > 0 {
        let c = crtcs[0];
        let next = if m.live(c) { m } else { m.create(c, windows[0]) };
        if !m.live(c) {
            lemma_create_wf(m, c, windows[0]);
            assert forall|x: u32| m.live(x) implies next.live(x) by {
                let i = choose|i: nat| m.alive(i) && #[trigger] m.surfaces[i as int].crtc == x;
                assert(next.alive(i) && next.surfaces[i as int].crtc == x);
            }
        }
        lemma_create_all(next, crtcs.drop_first(), windows.drop_first());
        let f = create_all(m, crtcs, windows);
        assert(f == create_all(next, crtcs.drop_first(), windows.drop_first()));
        assert forall|k: int| #![trigger crtcs[k]] 0 <= k < crtcs.len() implies {
            &&& f.live(crtcs[k])
            &&& forall|i: nat, i2: nat|
                f.alive(i) && f.alive(i2) && f.surfaces[i as int].crtc == crtcs[k]
                    && f.surfaces[i2 as int].crtc == crtcs[k] ==> i == i2
        } by {
            if k > 0 {
                assert(crtcs[k] == crtcs.drop_first()[k - 1]);
            } else {
                assert(next.live(c));
            }
            assert forall|i: nat, i2: nat|
                f.alive(i) && f.alive(i2) && f.surfaces[i as int].crtc == crtcs[k]
                    && f.surfaces[i2 as int].crtc == crtcs[k] implies i == i2 by {
                lemma_live_unique(f, i, i2);
            }
        }
    }
}

/// Two swaps in a row without an acknowledged completion: once the first
/// succeeded, the second reports the flip as still pending.
pub proof fn lemma_swap_twice(m: DeviceModel, i: nat, first: u32)
    requires
        m.wf(),
        m.alive(i),
        m.swap_result(i) is Ok,
    ensures
        m.swap(i, first).swap_result(i) == Err::<(), SwapBuffersError>(SwapBuffersError::AlreadySwapped),
{
}

/// A sequence whose items all pass `p` is its own filter.
proof fn lemma_filter_keeps_all(s: Seq<RegistryEntry>, p: spec_fn(RegistryEntry) -> bool)
    requires
        forall|a: int| 0 <= a < s.len() ==> p(#[trigger] s[a]),
    ensures
        s.filter(p) == s,
    decreases s.len(),
{
    reveal(Seq::filter);
    if s.len() > 0 {
        lemma_filter_keeps_all(s.drop_last(), p);
        assert(s.drop_last().push(s.last()) =~= s);
    }
}

/// A destroyed surface has no registry entry once the session resumed, and
/// a second resume changes nothing more.
pub proof fn lemma_resume_purges(m: DeviceModel, i: nat)
    requires
        m.wf(),
        i < m.surfaces.len(),
        !m.surfaces[i as int].alive,
    ensures
        forall|a: int| 0 <= a < resumed(m).registry.len() ==> (#[trigger] resumed(m).registry[a]).surface != i,
        resumed(resumed(m)) == resumed(m),
{
    lemma_purge_prefix(m, m.registry.len() as int);
    assert(m.registry.take(m.registry.len() as int) =~= m.registry);
    let n = resumed(m);
    assert forall|a: int| 0 <= a < n.registry.len() implies entry_alive(n)(#[trigger] n.registry[a]) by {
        assert(m.surfaces[n.registry[a].surface as int].alive);
    }
    lemma_filter_keeps_all(n.registry, entry_alive(n));
    assert(n.surfaces.map_values(|s: SurfaceState| resumed_surface(s)) =~= n.surfaces);
    assert(resumed(n) =~= n);
}

/// On resume, a live surface gets exactly one replay item for its CRTC, and
/// it flips to the framebuffer the surface was presenting.
pub proof fn lemma_resume_restarts(m: DeviceModel, i: nat)
    requires
        m.wf(),
        m.alive(i),
    ensures
        exists|a: int|
            0 <= a < restores(m).len() && #[trigger] restores(m)[a] == restore_of(m.surfaces[i as int])
                && forall|b: int| 0 <= b < restores(m).len() && (#[trigger] restores(m)[b]).crtc
                    == m.surfaces[i as int].crtc ==> b == a,
{
    lemma_purge_prefix(m, m.registry.len() as int);
    assert(m.registry.take(m.registry.len() as int) =~= m.registry);
    let f = purge(m);
    let r = restores(m);
    assert(m.surfaces[i as int].alive);
    let k = choose|k: int| 0 <= k < m.registry.len() && m.registry[k].surface == i;
    assert(m.surfaces[m.registry[k].surface as int].alive);
    let a = choose|a: int| 0 <= a < f.len() && f[a] == m.registry[k];
    assert(r[a] == restore_of(m.surfaces[i as int]));
    assert forall|b: int| 0 <= b < r.len() && (#[trigger] r[b]).crtc == m.surfaces[i as int].crtc implies b == a by {
        let kb = choose|kb: int| 0 <= kb < m.registry.len() && f[b] == #[trigger] m.registry[kb];
        assert(r[b].crtc == m.surfaces[f[b].surface as int].crtc);
        assert(f[b].crtc == f[a].crtc);
    }
}

pub struct GbmDevice {
    native: u64,
    active: bool,
    surfaces: Vec<SurfaceState>,
    registry: Vec<RegistryEntry>,
}

impl View for GbmDevice {
    type V = DeviceModel;

    closed spec fn view(&self) -> DeviceModel {
        DeviceModel {
            native: self.native,
            active: self.active,
            surfaces: self.surfaces@,
            registry: self.registry@,
        }
    }
}

impl GbmDevice {
    /// A device around the raw GBM device pointer `native`, with an active
    /// session and no surfaces.
    pub fn new(native: u64) -> (r: GbmDevice)
        ensures
            r@.wf(),
            r@.native == native,
            r@.active,
            r@.surfaces.len() == 0,
            r@.registry.len() == 0,
    {
        GbmDevice { native, active: true, surfaces: Vec::new(), registry: Vec::new() }
    }

    pub fn is_backend(&self) -> (r: bool)
        ensures
            r,
    {
        true
    }

    /// The raw device pointer, for building an EGL display.
    pub fn ptr(&self) -> (r: Result<u64, GbmError>)
        ensures
            self@.native == 0 ==> r == Err::<u64, GbmError>(GbmError::DeviceInvalid),
            self@.native != 0 ==> r == Ok::<u64, GbmError>(self@.native),
    {
        if self.native == 0 {
            Err(GbmError::DeviceInvalid)
        } else {
            Ok(self.native)
        }
    }

    /// Whether the session currently grants access to the device.
    pub fn is_active(&self) -> (r: bool)
        ensures
            r == self@.active,
    {
        self.active
    }

    /// The raw device pointer, which identifies the device.
    pub fn native(&self) -> (r: u64)
        ensures
            r == self@.native,
    {
        self.native
    }

    /// Whether `surface` was created on this device and is still live.
    pub fn owns(&self, surface: &GbmSurface) -> (r: bool)
        ensures
            r == (surface.device() == self@.native && self@.alive(surface.id())),
    {
        surface.device == self.native && surface.index < self.surfaces.len() && self.surfaces[surface.index].alive
    }

    /// Creates a surface for `crtc` from the allocator's result `window`
    /// (`None` when it refused the swap chain). A live surface on the same
    /// CRTC is never replaced; a stale registry entry is.
    pub fn create_surface(&mut self, crtc: u32, window: Option<u64>) -> (r: Result<GbmSurface, GbmError>)
        requires
            old(self)@.wf(),
            old(self)@.surfaces.len() < usize::MAX,
        ensures
            final(self)@.wf(),
            old(self)@.live(crtc) ==> r == Err::<GbmSurface, GbmError>(GbmError::AlreadyRegistered)
                && final(self)@ == old(self)@,
            !old(self)@.live(crtc) && window is None ==> r == Err::<GbmSurface, GbmError>(
                GbmError::SurfaceCreationFailed,
            ) && final(self)@ == old(self)@,
            !old(self)@.live(crtc) && window is Some ==> (r matches Ok(s) && s.id() == old(self)@.surfaces.len()
                && s.device() == old(self)@.native)
                && final(self)@ == old(self)@.create(crtc, window->Some_0),
    {
        let found = self.find_entry(crtc);
        if let Some(j) = found {
            let idx = self.registry[j].surface;
            if self.surfaces[idx].alive {
                assert(self@.alive(idx as nat) && self@.surfaces[idx as int].crtc == crtc);
                return Err(GbmError::AlreadyRegistered);
            }
        }
        let ghost m = self@;
        proof {
            if m.live(crtc) {
                let i = choose|i: nat| m.alive(i) && #[trigger] m.surfaces[i as int].crtc == crtc;
                assert(m.surfaces[i as int].alive);
                let j2 = choose|j2: int| 0 <= j2 < m.registry.len() && m.registry[j2].surface == i;
                assert(m.registry[j2].crtc == crtc);
                assert(m.registered(crtc));
                assert(j2 == found->Some_0 as int);
                assert(false);
            }
            if let Some(j) = found {
                let c = choose|k: int| 0 <= k < m.registry.len() && #[trigger] m.registry[k].crtc == crtc;
                assert(c == j);
                assert(m.entry_index(crtc) == Some(j as int));
            }
        }
        match window {
            None => Err(GbmError::SurfaceCreationFailed),
            Some(w) => {
                let index = self.surfaces.len();
                self.surfaces.push(SurfaceState {
                    crtc,
                    window: w,
                    needs_recreation: false,
                    pending_flip: None,
                    current_frame_buffer: None,
                    cursor: None,
                    alive: true,
                });
                let entry = RegistryEntry { crtc, surface: index };
                match found {
                    Some(j) => {
                        self.registry.set(j, entry);
                    },
                    None => {
                        self.registry.push(entry);
                    },
                }
                proof {
                    assert(self@ == m.create(crtc, w));
                    lemma_create_wf(m, crtc, w);
                }
                Ok(GbmSurface { device: self.native, index })
            },
        }
    }

    /// The slot of the live surface on `crtc`, if there is one.
    fn find_live(&self, crtc: u32) -> (r: Option<usize>)
        requires
            self@.wf(),
        ensures
            r is None ==> !self@.live(crtc),
            r matches Some(i) ==> self@.alive(i as nat) && self@.surfaces[i as int].crtc == crtc
                && self@.live(crtc) && self@.live_slot(crtc) == i,
    {
        let m = Ghost(self@);
        match self.find_entry(crtc) {
            Some(j) => {
                let idx = self.registry[j].surface;
                if self.surfaces[idx].alive {
                    proof {
                        assert(m@.alive(idx as nat) && m@.surfaces[idx as int].crtc == crtc);
                        let c = m@.live_slot(crtc);
                        lemma_live_unique(m@, c, idx as nat);
                    }
                    Some(idx)
                } else {
                    proof {
                        if m@.live(crtc) {
                            let i = m@.live_slot(crtc);
                            assert(m@.surfaces[i as int].alive);
                            let j2 = choose|j2: int| 0 <= j2 < m@.registry.len() && m@.registry[j2].surface == i;
                            assert(m@.registry[j2].crtc == crtc);
                            assert(j2 == j);
                        }
                    }
                    None
                }
            },
            None => {
                proof {
                    if m@.live(crtc) {
                        let i = m@.live_slot(crtc);
                        assert(m@.surfaces[i as int].alive);
                        let j2 = choose|j2: int| 0 <= j2 < m@.registry.len() && m@.registry[j2].surface == i;
                        assert(m@.registry[j2].crtc == crtc);
                    }
                }
                None
            },
        }
    }

    /// Replaces slot `i`, keeping its CRTC and never reviving it.
    fn put(&mut self, i: usize, s: SurfaceState)
        requires
            old(self)@.wf(),
            i < old(self)@.surfaces.len(),
            s.crtc == old(self)@.surfaces[i as int].crtc,
            s.alive ==> old(self)@.surfaces[i as int].alive,
        ensures
            final(self)@ == old(self)@.set(i as nat, s),
            final(self)@.wf(),
    {
        let ghost m = self@;
        self.surfaces.set(i, s);
        proof {
            let n = self@;
            assert(n == m.set(i as nat, s));
            assert forall|k: int| 0 <= k < n.surfaces.len() && #[trigger] n.surfaces[k].alive
                implies exists|j: int| 0 <= j < n.registry.len() && n.registry[j].surface == k by {
                if k != i {
                    assert(n.surfaces[k] == m.surfaces[k]);
                }
                assert(m.surfaces[k].alive);
                let j = choose|j: int| 0 <= j < m.registry.len() && m.registry[j].surface == k;
                assert(n.registry[j].surface == k);
            }
        }
    }

    /// Native handle of the surface's swap chain, for building an EGL surface.
    pub fn native_window_pointer(&self, surface: &GbmSurface) -> (r: u64)
        requires
            self@.alive(surface.id()),
        ensures
            r == self@.surfaces[surface.id() as int].window,
    {
        self.surfaces[surface.index].window
    }

    pub fn needs_recreation(&self, surface: &GbmSurface) -> (r: bool)
        requires
            self@.alive(surface.id()),
        ensures
            r == self@.surfaces[surface.id() as int].needs_recreation,
    {
        self.surfaces[surface.index].needs_recreation
    }

    /// Records that the output configuration no longer fits the swap chain.
    pub fn mark_needs_recreation(&mut self, surface: &GbmSurface)
        requires
            old(self)@.wf(),
            old(self)@.alive(surface.id()),
        ensures
            final(self)@.wf(),
            final(self)@ == old(self)@.set(
                surface.id(),
                SurfaceState { needs_recreation: true, ..old(self)@.surfaces[surface.id() as int] },
            ),
    {
        let s = self.surfaces[surface.index];
        self.put(surface.index, SurfaceState { needs_recreation: true, ..s });
    }

    /// Installs the swap chain `window` the allocator rebuilt for this
    /// surface, or reports `false` when it could not (`None`), leaving the
    /// surface as it was. The old chain's buffers are gone with it, so no
    /// framebuffer of it stays presented or pending.
    pub fn recreate(&mut self, surface: &GbmSurface, window: Option<u64>) -> (r: bool)
        requires
            old(self)@.wf(),
            old(self)@.alive(surface.id()),
        ensures
            final(self)@.wf(),
            r == window is Some,
            window is None ==> final(self)@ == old(self)@,
            window matches Some(w) ==> final(self)@ == old(self)@.set(
                surface.id(),
                SurfaceState {
                    window: w,
                    needs_recreation: false,
                    pending_flip: None,
                    current_frame_buffer: None,
                    ..old(self)@.surfaces[surface.id() as int]
                },
            ),
    {
        match window {
            None => false,
            Some(w) => {
                let s = self.surfaces[surface.index];
                self.put(
                    surface.index,
                    SurfaceState {
                        window: w,
                        needs_recreation: false,
                        pending_flip: None,
                        current_frame_buffer: None,
                        ..s
                    },
                );
                true
            },
        }
    }

    /// Stores a copy of the cursor image, replayed when the session resumes.
    pub fn set_cursor(&mut self, surface: &GbmSurface, cursor: Option<CursorImage>)
        requires
            old(self)@.wf(),
            old(self)@.alive(surface.id()),
        ensures
            final(self)@.wf(),
            final(self)@ == old(self)@.set(
                surface.id(),
                SurfaceState { cursor, ..old(self)@.surfaces[surface.id() as int] },
            ),
    {
        let s = self.surfaces[surface.index];
        self.put(surface.index, SurfaceState { cursor, ..s });
    }

    /// Hands the rendered `frame_buffer` over for presentation; a surface
    /// that needs recreation is recreated first. On success
    /// the page flip to issue is returned and stays pending until its
    /// completion is reported.
    pub fn swap_buffers(&mut self, surface: &GbmSurface, frame_buffer: u32) -> (r: Result<PageFlip, SwapBuffersError>)
        requires
            old(self)@.wf(),
            old(self)@.alive(surface.id()),
            !old(self)@.surfaces[surface.id() as int].needs_recreation,
        ensures
            final(self)@.wf(),
            old(self)@.swap_result(surface.id()) is Ok ==> r == Ok::<PageFlip, SwapBuffersError>(
                PageFlip { crtc: old(self)@.surfaces[surface.id() as int].crtc, frame_buffer },
            ) && final(self)@ == old(self)@.swap(surface.id(), frame_buffer),
            old(self)@.swap_result(surface.id()) matches Err(e) ==> r == Err::<PageFlip, SwapBuffersError>(e)
                && final(self)@ == old(self)@,
    {
        if !self.active {
            return Err(SwapBuffersError::TemporarilyUnavailable);
        }
        let s = self.surfaces[surface.index];
        if s.pending_flip.is_some() {
            return Err(SwapBuffersError::AlreadySwapped);
        }
        self.put(surface.index, SurfaceState { pending_flip: Some(frame_buffer), ..s });
        Ok(PageFlip { crtc: s.crtc, frame_buffer })
    }

    /// The device reported the completion of the page flip on `crtc`.
    pub fn page_flip_complete(&mut self, crtc: u32)
        requires
            old(self)@.wf(),
        ensures
            final(self)@.wf(),
            final(self)@ == old(self)@.acknowledge(crtc),
    {
        if let Some(i) = self.find_live(crtc) {
            let s = self.surfaces[i];
            if let Some(fb) = s.pending_flip {
                self.put(i, SurfaceState { current_frame_buffer: Some(fb), pending_flip: None, ..s });
            }
        }
    }

    /// The device refused the page flip requested on `crtc`; returns the
    /// error the swap reports.
    pub fn page_flip_failed(&mut self, crtc: u32) -> (r: SwapBuffersError)
        requires
            old(self)@.wf(),
        ensures
            final(self)@.wf(),
            final(self)@ == old(self)@.abandon(crtc),
            r == SwapBuffersError::Rejected,
    {
        if let Some(i) = self.find_live(crtc) {
            let s = self.surfaces[i];
            self.put(i, SurfaceState { pending_flip: None, ..s });
        }
        SwapBuffersError::Rejected
    }

    /// Drops the surface. Its registry entry goes stale and is purged when
    /// the session next resumes.
    pub fn destroy_surface(&mut self, surface: GbmSurface)
        requires
            old(self)@.wf(),
            old(self)@.alive(surface.id()),
        ensures
            final(self)@.wf(),
            final(self)@ == old(self)@.set(
                surface.id(),
                SurfaceState { alive: false, ..old(self)@.surfaces[surface.id() as int] },
            ),
    {
        let s = self.surfaces[surface.index];
        self.put(surface.index, SurfaceState { alive: false, ..s });
    }

    /// The session was paused: the device is unavailable until it resumes.
    /// Surfaces are left as they are; a flip in flight is settled on resume.
    pub fn pause(&mut self)
        requires
            old(self)@.wf(),
        ensures
            final(self)@ == paused(old(self)@),
            final(self)@.wf(),
    {
        self.active = false;
    }

    /// The session was resumed: the device is available again, stale
    /// registry entries are purged, and every live surface flips to its
    /// presented framebuffer again. Returns, per live registry entry, what
    /// the caller replays on the device.
    pub fn activate(&mut self) -> (r: Vec<SurfaceRestore>)
        requires
            old(self)@.wf(),
        ensures
            final(self)@ == resumed(old(self)@),
            final(self)@.wf(),
            r@ == restores(old(self)@),
    {
        let ghost m = self@;
        let ghost p = entry_alive(m);
        let mut kept: Vec<RegistryEntry> = Vec::new();
        let mut out: Vec<SurfaceRestore> = Vec::new();
        let mut j: usize = 0;
        while j < self.registry.len()
            invariant
                self@ == m,
                m.wf(),
                p == entry_alive(m),
                j <= m.registry.len(),
                kept@ == m.registry.take(j as int).filter(p),
                out@ == kept@.map_values(|e: RegistryEntry| restore_of(m.surfaces[e.surface as int])),
            decreases m.registry.len() - j,
        {
            let e = self.registry[j];
            let s = self.surfaces[e.surface];
            proof {
                assert(m.registry.take(j + 1) =~= m.registry.take(j as int).push(e));
                m.registry.take(j as int).lemma_filter_push(e, p);
            }
            if s.alive {
                kept.push(e);
                out.push(SurfaceRestore { crtc: s.crtc, flip: s.current_frame_buffer, cursor: s.cursor });
                proof {
                    assert(out@ =~= kept@.map_values(|e: RegistryEntry| restore_of(m.surfaces[e.surface as int])));
                }
            }
            j = j + 1;
        }
        proof {
            assert(m.registry.take(m.registry.len() as int) =~= m.registry);
        }
        let mut i: usize = 0;
        while i < self.surfaces.len()
            invariant
                self.surfaces@.len() == m.surfaces.len(),
                i <= m.surfaces.len(),
                forall|k: int| 0 <= k < i ==> self.surfaces@[k] == resumed_surface(m.surfaces[k]),
                forall|k: int| i <= k < m.surfaces.len() ==> self.surfaces@[k] == m.surfaces[k],
                self.registry@ == m.registry,
                self.native == m.native,
            decreases m.surfaces.len() - i,
        {
            let s = self.surfaces[i];
            if s.alive {
                self.surfaces.set(i, SurfaceState { pending_flip: s.current_frame_buffer, ..s });
            }
            i = i + 1;
        }
        self.registry = kept;
        self.active = true;
        proof {
            assert(self.surfaces@ =~= m.surfaces.map_values(|s: SurfaceState| resumed_surface(s)));
            assert(self@ =~= resumed(m));
            lemma_resumed_wf(m);
        }
        out
    }

    /// Position of the registry entry for `crtc`.
    fn find_entry(&self, crtc: u32) -> (r: Option<usize>)
        ensures
            r is None ==> !self@.registered(crtc),
            r matches Some(j) ==> j < self@.registry.len() && self@.registry[j as int].crtc == crtc,
    {
        let mut j: usize = 0;
        while j < self.registry.len()
            invariant
                j <= self.registry@.len(),
                forall|k: int| 0 <= k < j ==> self.registry@[k].crtc != crtc,
            decreases self.registry.len() - j,
        {
            if self.registry[j].crtc == crtc {
                return Some(j);
            }
            j = j + 1;
        }
        None
    }
}

} // verus!
