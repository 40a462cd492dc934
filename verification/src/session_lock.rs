//! Session locking (`ext-session-lock-v1`): the lifecycle a lock screen
//! goes through, and the decisions the event loop takes on it each frame.
//!
//! The application asks for a lock with [`SessionLock::lock_session`] and
//! for its end with [`SessionLock::unlock_session`]; the two share one
//! request slot, so the last request of a frame is the one acted on. Once a
//! frame, the event loop drives the machine: it takes the request
//! ([`SessionLock::begin_frame`]), tells it what the compositor said
//! ([`SessionLock::lock_started`], [`SessionLock::lock_event`]), tears down
//! on unlock ([`SessionLock::finish_unlock`]), and while locked keeps one
//! lock surface per connected output ([`SessionLock::drop_stale_surfaces`],
//! [`SessionLock::needs_lock_surface`], [`SessionLock::record_lock_surface`]).

use vstd::prelude::*;

use crate::id_map::IdMap;
use crate::platform::OutputId;
use crate::surface::SurfaceId;

verus! {

/// Lifecycle of the session lock.
#[derive(Debug, Clone, Copy, PartialEq, Eq, Structural)]
pub enum LockState {
    /// No lock held (also after a denied or finished lock).
    Unlocked,
    /// Lock requested, waiting for the compositor to grant it.
    Locking,
    /// Lock granted: lock surfaces are shown on every output.
    Locked,
}

impl Default for LockState {
    fn default() -> (s: LockState)
        ensures
            s == LockState::Unlocked,
    {
        LockState::Unlocked
    }
}

/// What the application last asked for. A lock carries the factory that
/// builds each output's lock screen, so a request that is replaced takes
/// its factory with it.
pub enum LockRequest<F> {
    Lock(F),
    Unlock,
}

/// A lifecycle event from the compositor.
#[derive(Debug, Clone, Copy, PartialEq, Eq, Structural)]
pub enum LockEvent {
    /// The lock was granted.
    Locked,
    /// The lock was denied, or ended without an unlock of ours.
    Finished,
}

/// What the frame's request asks of the platform.
#[derive(Debug, Clone, Copy, PartialEq, Eq, Structural)]
pub enum FrameRequest {
    /// Nothing was asked.
    Nothing,
    /// Ask the compositor for the lock, then report with
    /// [`SessionLock::lock_started`].
    StartLock,
    /// Unlock, once the compositor's events of this frame are in: report
    /// with [`SessionLock::finish_unlock`].
    Unlock,
}

/// The session lock as a value: its state, the pending request, the lock
/// screen factory and the lock surface of each output (keyed by the output
/// id's value).
pub struct LockModel<F> {
    pub state: LockState,
    pub request: Option<LockRequest<F>>,
    pub factory: Option<F>,
    pub surfaces: Map<u64, SurfaceId>,
}

/// `lock_session`: refused while a lock is held or pending, otherwise the
/// request slot holds the lock.
pub open spec fn after_lock_session<F>(m: LockModel<F>, f: F) -> LockModel<F> {
    if m.state is Unlocked {
        LockModel { request: Some(LockRequest::Lock(f)), ..m }
    } else {
        m
    }
}

/// `unlock_session`: the request slot holds the unlock.
pub open spec fn after_unlock_session<F>(m: LockModel<F>) -> LockModel<F> {
    LockModel { request: Some(LockRequest::Unlock), ..m }
}

/// `begin_frame`: the slot is emptied; a lock installs its factory.
pub open spec fn after_begin_frame<F>(m: LockModel<F>) -> (LockModel<F>, FrameRequest) {
    match m.request {
        Some(LockRequest::Lock(f)) => (
            LockModel { request: None, factory: Some(f), ..m },
            FrameRequest::StartLock,
        ),
        Some(LockRequest::Unlock) => (LockModel { request: None, ..m }, FrameRequest::Unlock),
        None => (m, FrameRequest::Nothing),
    }
}

/// `lock_started`: granted, the lock is pending; refused, it is dropped with
/// its factory.
pub open spec fn after_lock_started<F>(m: LockModel<F>, granted: bool) -> LockModel<F> {
    if granted {
        LockModel { state: LockState::Locking, ..m }
    } else {
        LockModel { state: LockState::Unlocked, factory: None, ..m }
    }
}

/// A torn-down lock: no surfaces, no factory, unlocked.
pub open spec fn torn_down<F>(m: LockModel<F>) -> LockModel<F> {
    LockModel { state: LockState::Unlocked, factory: None, surfaces: Map::empty(), ..m }
}

/// `lock_event`: `Locked` locks; `Finished` tears everything down.
pub open spec fn after_lock_event<F>(m: LockModel<F>, e: LockEvent) -> LockModel<F> {
    match e {
        LockEvent::Locked => LockModel { state: LockState::Locked, ..m },
        LockEvent::Finished => torn_down(m),
    }
}

/// `finish_unlock`: an unlock asked for while not unlocked tears down.
pub open spec fn after_finish_unlock<F>(m: LockModel<F>, unlock_requested: bool) -> LockModel<F> {
    if unlock_requested && !(m.state is Unlocked) {
        torn_down(m)
    } else {
        m
    }
}

/// The output ids, as the keys lock surfaces are kept under.
pub open spec fn output_keys(current: Seq<OutputId>) -> Set<u64> {
    Set::new(|k: u64| exists|i: int| 0 <= i < current.len() && current[i].0 as u64 == k)
}

/// `drop_stale_surfaces`: while locked, the surfaces of disconnected outputs
/// go.
pub open spec fn after_drop_stale<F>(m: LockModel<F>, current: Seq<OutputId>) -> LockModel<F> {
    if m.state is Locked {
        LockModel { surfaces: m.surfaces.restrict(output_keys(current)), ..m }
    } else {
        m
    }
}

/// `needs_lock_surface`: while locked, an output without a lock surface.
pub open spec fn needs_surface<F>(m: LockModel<F>, output: OutputId) -> bool {
    m.state is Locked && !m.surfaces.dom().contains(output.0 as u64)
}

/// The session lock's state machine.
pub struct SessionLock<F> {
    state: LockState,
    request: Option<LockRequest<F>>,
    factory: Option<F>,
    surfaces: IdMap<SurfaceId>,
}

impl<F> SessionLock<F> {
    /// The machine as a value.
    pub closed spec fn model(&self) -> LockModel<F> {
        LockModel {
            state: self.state,
            request: self.request,
            factory: self.factory,
            surfaces: self.surfaces.view(),
        }
    }

    pub closed spec fn wf(&self) -> bool {
        self.surfaces.wf()
    }

    /// Unlocked, with nothing asked and nothing built.
    pub fn new() -> (l: SessionLock<F>)
        ensures
            l.wf(),
            l.model() == (LockModel::<F> {
                state: LockState::Unlocked,
                request: None,
                factory: None,
                surfaces: Map::empty(),
            }),
    {
        SessionLock { state: LockState::Unlocked, request: None, factory: None, surfaces: IdMap::new() }
    }

    fn set_state(&mut self, state: LockState)
        ensures
            final(self).model() == (LockModel { state, ..old(self).model() }),
            final(self).wf() == old(self).wf(),
    {
        self.state = state;
    }

    /// The session-lock lifecycle.
    pub fn lock_state(&self) -> (s: LockState)
        ensures
            s == self.model().state,
    {
        self.state
    }

    /// Whether the session is locked right now. It reports the state; to
    /// take the lock, see [`SessionLock::lock_session`].
    pub fn session_locked(&self) -> (b: bool)
        ensures
            b == (self.model().state is Locked),
    {
        match self.state {
            LockState::Locked => true,
            _ => false,
        }
    }

    /// Ask the compositor to lock the session, building each output's lock
    /// screen with `widget_fn`. Does nothing while a lock is held or pending;
    /// otherwise replaces whatever was asked before in this frame.
    pub fn lock_session(&mut self, widget_fn: F)
        ensures
            final(self).model() == after_lock_session(old(self).model(), widget_fn),
            final(self).wf() == old(self).wf(),
    {
        match self.state {
            LockState::Unlocked => {
                self.request = Some(LockRequest::Lock(widget_fn));
            },
            _ => {},
        }
    }

    /// Unlock the session and drop all lock surfaces, replacing whatever was
    /// asked before in this frame.
    pub fn unlock_session(&mut self)
        ensures
            final(self).model() == after_unlock_session(old(self).model()),
            final(self).wf() == old(self).wf(),
    {
        self.request = Some(LockRequest::Unlock);
    }

    /// Take the pending request, leaving none.
    pub fn take_request(&mut self) -> (r: Option<LockRequest<F>>)
        ensures
            r == old(self).model().request,
            final(self).model() == (LockModel { request: None, ..old(self).model() }),
            final(self).wf() == old(self).wf(),
    {
        let mut taken = None;
        std::mem::swap(&mut taken, &mut self.request);
        taken
    }

    /// Forget the factory, the surfaces and any pending request (when the
    /// application shuts down). The state is left as it is.
    pub fn reset_session_lock(&mut self)
        ensures
            final(self).wf(),
            final(self).model() == (LockModel::<F> {
                request: None,
                factory: None,
                surfaces: Map::empty(),
                ..old(self).model()
            }),
    {
        self.factory = None;
        self.surfaces.clear();
        self.request = None;
    }

    /// The frame's first step: take the request. A lock installs its
    /// factory and asks the platform to start the lock; an unlock waits until
    /// the compositor's events of this frame are in.
    pub fn begin_frame(&mut self) -> (r: FrameRequest)
        ensures
            (final(self).model(), r) == after_begin_frame(old(self).model()),
            final(self).wf() == old(self).wf(),
    {
        match self.take_request() {
            Some(LockRequest::Lock(factory)) => {
                self.factory = Some(factory);
                FrameRequest::StartLock
            },
            Some(LockRequest::Unlock) => FrameRequest::Unlock,
            None => FrameRequest::Nothing,
        }
    }

    /// Whether the platform sent the lock request: then the lock is pending;
    /// if it could not, the lock is dropped with its factory.
    pub fn lock_started(&mut self, granted: bool)
        ensures
            final(self).model() == after_lock_started(old(self).model(), granted),
            final(self).wf() == old(self).wf(),
    {
        if granted {
            self.set_state(LockState::Locking);
        } else {
            self.factory = None;
            self.set_state(LockState::Unlocked);
        }
    }

    /// Every lock surface, taken out of the machine for the platform to
    /// destroy.
    fn teardown_lock_surfaces(&mut self) -> (r: Vec<SurfaceId>)
        requires
            old(self).wf(),
        ensures
            final(self).wf(),
            final(self).model() == (LockModel { surfaces: Map::empty(), ..old(self).model() }),
            r@.len() == old(self).model().surfaces.dom().len(),
            forall|s: SurfaceId|
                r@.contains(s) <==> exists|k: u64|
                    old(self).model().surfaces.dom().contains(k) && old(self).model().surfaces[k]
                        == s,
    {
        let ghost before = self.surfaces.view();
        let gone = self.surfaces.drain_values();
        proof {
            assert forall|s: SurfaceId| gone@.contains(s) <==> exists|k: u64|
                before.dom().contains(k) && before[k] == s by {
                if gone@.contains(s) {
                    let k = choose|k: u64| before.dom().contains(k) && before[k] == s;
                }
            }
            assert(before == old(self).model().surfaces);
        }
        gone
    }

    /// A lifecycle event from the compositor. `Locked` locks; `Finished`
    /// (denied, or ended without our unlock) tears the lock down and hands
    /// back its surfaces for the platform to destroy.
    pub fn lock_event(&mut self, event: LockEvent) -> (r: Vec<SurfaceId>)
        requires
            old(self).wf(),
        ensures
            final(self).wf(),
            final(self).model() == after_lock_event(old(self).model(), event),
            event is Locked ==> r@.len() == 0,
            event is Finished ==> r@.len() == old(self).model().surfaces.dom().len(),
            event is Finished ==> forall|s: SurfaceId|
                r@.contains(s) <==> exists|k: u64|
                    old(self).model().surfaces.dom().contains(k) && old(self).model().surfaces[k]
                        == s,
    {
        match event {
            LockEvent::Locked => {
                self.set_state(LockState::Locked);
                Vec::new()
            },
            LockEvent::Finished => {
                let gone = self.teardown_lock_surfaces();
                self.factory = None;
                self.set_state(LockState::Unlocked);
                gone
            },
        }
    }

    /// The unlock taken at the start of the frame, now that the compositor's
    /// events are in: unless already unlocked, the lock is torn down and its
    /// surfaces handed back (after the platform unlocks, it destroys them).
    /// `None` when there is nothing to do.
    pub fn finish_unlock(&mut self, unlock_requested: bool) -> (r: Option<Vec<SurfaceId>>)
        requires
            old(self).wf(),
        ensures
            final(self).wf(),
            final(self).model() == after_finish_unlock(old(self).model(), unlock_requested),
            r is Some <==> (unlock_requested && !(old(self).model().state is Unlocked)),
            r matches Some(v) ==> v@.len() == old(self).model().surfaces.dom().len(),
            r matches Some(v) ==> forall|s: SurfaceId|
                v@.contains(s) <==> exists|k: u64|
                    old(self).model().surfaces.dom().contains(k) && old(self).model().surfaces[k]
                        == s,
    {
        match self.state {
            LockState::Unlocked => None,
            _ => {
                if unlock_requested {
                    let gone = self.teardown_lock_surfaces();
                    self.factory = None;
                    self.set_state(LockState::Unlocked);
                    Some(gone)
                } else {
                    None
                }
            },
        }
    }

    /// While locked, drop the lock surfaces of outputs no longer connected
    /// and hand them back for the platform to destroy. Not locked, nothing
    /// changes.
    pub fn drop_stale_surfaces(&mut self, current: &Vec<OutputId>) -> (r: Vec<SurfaceId>)
        requires
            old(self).wf(),
        ensures
            final(self).wf(),
            final(self).model() == after_drop_stale(old(self).model(), current@),
            r@.len() + final(self).model().surfaces.dom().len() == old(self).model().surfaces.dom().len(),
            forall|s: SurfaceId|
                r@.contains(s) <==> (old(self).model().state is Locked && exists|k: u64|
                    old(self).model().surfaces.dom().contains(k) && !output_keys(current@).contains(k)
                        && old(self).model().surfaces[k] == s),
    {
        match self.state {
            LockState::Locked => {
                let mut keys: Vec<u64> = Vec::new();
                let mut i: usize = 0;
                while i < current.len()
                    invariant
                        i <= current@.len(),
                        keys@.len() == i,
                        forall|j: int| 0 <= j < i ==> keys@[j] == current@[j].0 as u64,
                    decreases current@.len() - i,
                {
                    keys.push(current[i].0 as u64);
                    i = i + 1;
                }
                proof {
                    assert forall|k: u64| keys@.contains(k) <==> output_keys(current@).contains(k) by {
                        if keys@.contains(k) {
                            let j = choose|j: int| 0 <= j < keys@.len() && keys@[j] == k;
                            assert(current@[j].0 as u64 == k);
                        }
                        if output_keys(current@).contains(k) {
                            let j = choose|j: int| 0 <= j < current@.len() && current@[j].0 as u64 == k;
                            assert(keys@[j] == k);
                        }
                    }
                    assert(keys@.to_set() =~= output_keys(current@));
                }
                self.surfaces.retain_keys(&keys)
            },
            _ => Vec::new(),
        }
    }

    /// Whether an output needs a lock surface built: the session is locked
    /// and the output has none.
    pub fn needs_lock_surface(&self, output: OutputId) -> (b: bool)
        requires
            self.wf(),
        ensures
            b == needs_surface(self.model(), output),
    {
        match self.state {
            LockState::Locked => !self.surfaces.contains_key(output.0 as u64),
            _ => false,
        }
    }

    /// The lock surface the platform built for an output.
    pub fn record_lock_surface(&mut self, output: OutputId, id: SurfaceId)
        requires
            old(self).wf(),
        ensures
            final(self).wf(),
            final(self).model() == (LockModel {
                surfaces: old(self).model().surfaces.insert(output.0 as u64, id),
                ..old(self).model()
            }),
    {
        self.surfaces.insert(output.0 as u64, id);
    }

    /// The factory that builds each output's lock screen, if one is
    /// installed.
    pub fn factory(&self) -> (r: Option<&F>)
        ensures
            r == (match self.model().factory {
                Some(f) => Some(&f),
                None => None,
            }),
    {
        match &self.factory {
            Some(f) => Some(f),
            None => None,
        }
    }
}

/// The last request of a frame is the one acted on: an unlock after a lock
/// replaces it, a lock after an unlock (while unlocked) replaces that, and
/// taking the request leaves none behind.
pub proof fn law_last_request_counts<F>(m: LockModel<F>, f: F)
    ensures
        after_unlock_session(after_lock_session(m, f)).request == Some(LockRequest::<F>::Unlock),
        m.state is Unlocked ==> after_lock_session(after_unlock_session(m), f).request == Some(
            LockRequest::Lock(f),
        ),
        after_begin_frame(after_unlock_session(after_lock_session(m, f))).1 == FrameRequest::Unlock,
        after_begin_frame(m).0.request is None,
{
}

/// Asking for a lock while one is held or pending changes nothing.
pub proof fn law_no_second_lock<F>(m: LockModel<F>, f: F)
    requires
        !(m.state is Unlocked),
    ensures
        after_lock_session(m, f) == m,
{
}

/// A lock request installs its factory and goes to the platform; if the
/// platform can send it the lock is pending with that factory, and if not
/// the session is unlocked with no factory.
pub proof fn law_lock_start<F>(m: LockModel<F>, f: F)
    requires
        m.request == Some(LockRequest::Lock(f)),
    ensures
        after_begin_frame(m).1 == FrameRequest::StartLock,
        after_lock_started(after_begin_frame(m).0, true).state == LockState::Locking,
        after_lock_started(after_begin_frame(m).0, true).factory == Some(f),
        after_lock_started(after_begin_frame(m).0, false).state == LockState::Unlocked,
        after_lock_started(after_begin_frame(m).0, false).factory is None,
{
}

/// A lock the compositor finishes (denied, or ended without our unlock)
/// leaves the session unlocked, with no surfaces and no factory.
pub proof fn law_finished_tears_down<F>(m: LockModel<F>)
    ensures
        after_lock_event(m, LockEvent::Finished).state == LockState::Unlocked,
        after_lock_event(m, LockEvent::Finished).surfaces == Map::<u64, SurfaceId>::empty(),
        after_lock_event(m, LockEvent::Finished).factory is None,
{
}

/// An unlock asked for in the same frame as the compositor grants the lock
/// lands after the grant: the frame ends unlocked with no lock surfaces,
/// never locked with nothing shown.
pub proof fn law_unlock_lands_after_grant<F>(m: LockModel<F>)
    ensures
        after_finish_unlock(after_lock_event(m, LockEvent::Locked), true).state
            == LockState::Unlocked,
        after_finish_unlock(after_lock_event(m, LockEvent::Locked), true).surfaces == Map::<
            u64,
            SurfaceId,
        >::empty(),
{
}

/// An unlock while unlocked does nothing.
pub proof fn law_unlock_when_unlocked<F>(m: LockModel<F>)
    requires
        m.state is Unlocked,
    ensures
        after_finish_unlock(m, true) == m,
{
}

/// While locked, one lock surface per connected output: after the stale
/// ones are dropped no disconnected output keeps one, and the outputs that
/// still need one are exactly the connected outputs without one — so once
/// each is built, the outputs with a lock surface are the connected ones.
pub proof fn law_one_surface_per_output<F>(m: LockModel<F>, current: Seq<OutputId>)
    requires
        m.state is Locked,
    ensures
        forall|k: u64|
            after_drop_stale(m, current).surfaces.dom().contains(k) ==> output_keys(
                current,
            ).contains(k),
        forall|k: u64|
            (after_drop_stale(m, current).surfaces.dom().contains(k) || exists|i: int|
                0 <= i < current.len() && needs_surface(after_drop_stale(m, current), current[i])
                    && current[i].0 as u64 == k) <==> output_keys(current).contains(k),
{
    let m1 = after_drop_stale(m, current);
    assert forall|k: u64|
        (m1.surfaces.dom().contains(k) || exists|i: int|
            0 <= i < current.len() && needs_surface(m1, current[i]) && current[i].0 as u64 == k)
            <==> output_keys(current).contains(k) by {
        if output_keys(current).contains(k) && !m1.surfaces.dom().contains(k) {
            let i = choose|i: int| 0 <= i < current.len() && current[i].0 as u64 == k;
            assert(needs_surface(m1, current[i]));
        }
    }
}

/// An unlock asked for while the session is not unlocked (locking, or
/// locked) always ends the frame unlocked, with no lock screen factory and
/// no lock surfaces: a pending lock is abandoned, not left to be granted
/// later. Asked for while unlocked, or not asked for, nothing changes.
pub proof fn law_unlock_always_abandons_the_lock<F>(m: LockModel<F>)
    ensures
        !(m.state is Unlocked) ==> after_finish_unlock(m, true).state is Unlocked,
        !(m.state is Unlocked) ==> after_finish_unlock(m, true).factory.is_none(),
        !(m.state is Unlocked) ==> after_finish_unlock(m, true).surfaces.dom().len() == 0,
        !(m.state is Unlocked) ==> after_finish_unlock(m, true).request == m.request,
        m.state is Unlocked ==> after_finish_unlock(m, true) == m,
        after_finish_unlock(m, false) == m,
{
    assert(Map::<u64, SurfaceId>::empty().dom() =~= Set::<u64>::empty());
}

} // verus!
