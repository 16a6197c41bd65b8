//! The full receive pipeline: bytes in, observer events out.
//!
//! Bytes become frames, frames become transport events, transport events
//! become application events, and the observer correlates all of it. Each
//! layer is driven to completion for one frame before the next frame is
//! taken, so delivery is synchronous and ordered.

use vstd::prelude::*;

use crate::application::{app_events_view, app_step, AppCounters, Application, ApplicationEvent, ApplicationEventView};
use crate::framer::{rx_run, rx_wf, Receiver as LinkReceiver, RxView};
use crate::link::Frame;
use crate::observer::{
    emits_one_infrastructure, latest_infrastructure_matches, lemma_events_match_empty,
    obs_application_step, obs_transport_step, observer_events_match, ObsView, Observer,
    ObserverEvent, ObserverEventView,
};
use crate::persistent_state::event_matches_state;
use crate::persistent_state::PersistentState;
use crate::slot_clock::MAX_TIME_MS;
use crate::transport::{
    events_view, lemma_tr_run_snoc, tr_run, tr_step, Receiver as TransportReceiver,
    TransportEvent, TransportEventView, TrState,
};

verus! {

/// The observer folded over a run of application events: the final observer
/// state, and the shapes of everything emitted, in order.
pub open spec fn obs_app_run(o: ObsView, evs: Seq<ApplicationEventView>) -> (
    ObsView,
    Seq<ObserverEventView>,
)
    decreases evs.len(),
{
    if evs.len() == 0 {
        (o, Seq::empty())
    } else {
        let first = obs_application_step(o, evs[0]);
        let rest = obs_app_run(first.0, evs.skip(1));
        (rest.0, first.1 + rest.1)
    }
}

/// One transport event processed down the stack: the observer sees the event,
/// the application decoder derives its reports, and the observer sees those,
/// in that order.
pub open spec fn pipe_event_step(o: ObsView, a: AppCounters, e: TransportEventView, now_ms: i64) -> (
    ObsView,
    AppCounters,
    Seq<ObserverEventView>,
) {
    let t = obs_transport_step(o, e, now_ms);
    let app = app_step(a, e);
    let derived = obs_app_run(t.0, app.1);
    (derived.0, app.0, t.1 + derived.1)
}

/// A run of transport events processed down the stack.
pub open spec fn pipe_events_run(
    o: ObsView,
    a: AppCounters,
    evs: Seq<TransportEventView>,
    now_ms: i64,
) -> (ObsView, AppCounters, Seq<ObserverEventView>)
    decreases evs.len(),
{
    if evs.len() == 0 {
        (o, a, Seq::empty())
    } else {
        let first = pipe_event_step(o, a, evs[0], now_ms);
        let rest = pipe_events_run(first.0, first.1, evs.skip(1), now_ms);
        (rest.0, rest.1, first.2 + rest.2)
    }
}

/// A run of frames through the transport decoder, the application decoder and
/// the observer: the three final states, and the shapes of everything the
/// observer emitted, in order.
pub open spec fn pipe_run(
    t: TrState,
    a: AppCounters,
    o: ObsView,
    frames: Seq<crate::link::FrameView>,
    now_ms: i64,
) -> (TrState, AppCounters, ObsView, Seq<ObserverEventView>)
    decreases frames.len(),
{
    if frames.len() == 0 {
        (t, a, o, Seq::empty())
    } else {
        let f = tr_step(t, frames[0]);
        let evs = pipe_events_run(o, a, f.1, now_ms);
        let rest = pipe_run(f.0, evs.1, evs.0, frames.skip(1), now_ms);
        (rest.0, rest.1, rest.2, evs.2 + rest.3)
    }
}

/// Folding application events over a concatenation is folding each part.
proof fn lemma_obs_app_run_append(o: ObsView, a: Seq<ApplicationEventView>, b: Seq<
    ApplicationEventView,
>)
    ensures
        obs_app_run(o, a + b).0 == obs_app_run(obs_app_run(o, a).0, b).0,
        obs_app_run(o, a + b).1 == obs_app_run(o, a).1 + obs_app_run(obs_app_run(o, a).0, b).1,
    decreases a.len(),
{
    if a.len() == 0 {
        assert(a + b =~= b);
        assert(obs_app_run(o, a).1 + obs_app_run(obs_app_run(o, a).0, b).1 =~= obs_app_run(
            o,
            b,
        ).1);
    } else {
        let first = obs_application_step(o, a[0]);
        lemma_obs_app_run_append(first.0, a.skip(1), b);
        assert((a + b).skip(1) =~= a.skip(1) + b);
        assert(first.1 + (obs_app_run(first.0, a.skip(1)).1 + obs_app_run(
            obs_app_run(first.0, a.skip(1)).0,
            b,
        ).1) =~= (first.1 + obs_app_run(first.0, a.skip(1)).1) + obs_app_run(
            obs_app_run(first.0, a.skip(1)).0,
            b,
        ).1);
    }
}

/// Folding one more application event is a fold then a step.
proof fn lemma_obs_app_run_snoc(o: ObsView, evs: Seq<ApplicationEventView>, i: int)
    requires
        0 <= i < evs.len(),
    ensures
        obs_app_run(o, evs.take(i + 1)).0 == obs_application_step(
            obs_app_run(o, evs.take(i)).0,
            evs[i],
        ).0,
        obs_app_run(o, evs.take(i + 1)).1 == obs_app_run(o, evs.take(i)).1
            + obs_application_step(obs_app_run(o, evs.take(i)).0, evs[i]).1,
    decreases i + 1,
{
    assert(evs.take(i + 1) =~= evs.take(i) + seq![evs[i]]);
    lemma_obs_app_run_append(o, evs.take(i), seq![evs[i]]);
    let mid = obs_app_run(o, evs.take(i)).0;
    assert(seq![evs[i]].skip(1) =~= Seq::<ApplicationEventView>::empty());
    reveal_with_fuel(obs_app_run, 2);
    assert(obs_app_run(mid, seq![evs[i]]).0 == obs_application_step(mid, evs[i]).0);
    assert(obs_app_run(mid, seq![evs[i]]).1 =~= obs_application_step(mid, evs[i]).1);
}

/// Running transport events over a concatenation is running each part.
proof fn lemma_pipe_events_run_append(
    o: ObsView,
    a: AppCounters,
    x: Seq<TransportEventView>,
    y: Seq<TransportEventView>,
    now_ms: i64,
)
    ensures
        pipe_events_run(o, a, x + y, now_ms).0 == pipe_events_run(
            pipe_events_run(o, a, x, now_ms).0,
            pipe_events_run(o, a, x, now_ms).1,
            y,
            now_ms,
        ).0,
        pipe_events_run(o, a, x + y, now_ms).1 == pipe_events_run(
            pipe_events_run(o, a, x, now_ms).0,
            pipe_events_run(o, a, x, now_ms).1,
            y,
            now_ms,
        ).1,
        pipe_events_run(o, a, x + y, now_ms).2 == pipe_events_run(o, a, x, now_ms).2
            + pipe_events_run(
            pipe_events_run(o, a, x, now_ms).0,
            pipe_events_run(o, a, x, now_ms).1,
            y,
            now_ms,
        ).2,
    decreases x.len(),
{
    if x.len() == 0 {
        assert(x + y =~= y);
        assert(pipe_events_run(o, a, x, now_ms).2 + pipe_events_run(o, a, y, now_ms).2
            =~= pipe_events_run(o, a, y, now_ms).2);
    } else {
        let first = pipe_event_step(o, a, x[0], now_ms);
        lemma_pipe_events_run_append(first.0, first.1, x.skip(1), y, now_ms);
        assert((x + y).skip(1) =~= x.skip(1) + y);
        let mid = pipe_events_run(first.0, first.1, x.skip(1), now_ms);
        let tail = pipe_events_run(mid.0, mid.1, y, now_ms);
        assert(first.2 + (mid.2 + tail.2) =~= (first.2 + mid.2) + tail.2);
    }
}

/// Running one more transport event is a run then a step.
proof fn lemma_pipe_events_run_snoc(
    o: ObsView,
    a: AppCounters,
    evs: Seq<TransportEventView>,
    i: int,
    now_ms: i64,
)
    requires
        0 <= i < evs.len(),
    ensures
        ({
            let r = pipe_events_run(o, a, evs.take(i), now_ms);
            let s = pipe_event_step(r.0, r.1, evs[i], now_ms);
            &&& pipe_events_run(o, a, evs.take(i + 1), now_ms).0 == s.0
            &&& pipe_events_run(o, a, evs.take(i + 1), now_ms).1 == s.1
            &&& pipe_events_run(o, a, evs.take(i + 1), now_ms).2 == r.2 + s.2
        }),
{
    assert(evs.take(i + 1) =~= evs.take(i) + seq![evs[i]]);
    lemma_pipe_events_run_append(o, a, evs.take(i), seq![evs[i]], now_ms);
    let r = pipe_events_run(o, a, evs.take(i), now_ms);
    assert(seq![evs[i]].skip(1) =~= Seq::<TransportEventView>::empty());
    reveal_with_fuel(pipe_events_run, 2);
    let s = pipe_event_step(r.0, r.1, evs[i], now_ms);
    assert(pipe_events_run(r.0, r.1, seq![evs[i]], now_ms).0 == s.0);
    assert(pipe_events_run(r.0, r.1, seq![evs[i]], now_ms).2 =~= s.2);
}

/// Running frames over a concatenation is running each part.
proof fn lemma_pipe_run_append(
    t: TrState,
    a: AppCounters,
    o: ObsView,
    x: Seq<crate::link::FrameView>,
    y: Seq<crate::link::FrameView>,
    now_ms: i64,
)
    ensures
        ({
            let rx0 = pipe_run(t, a, o, x, now_ms);
            let ry = pipe_run(rx0.0, rx0.1, rx0.2, y, now_ms);
            &&& pipe_run(t, a, o, x + y, now_ms).0 == ry.0
            &&& pipe_run(t, a, o, x + y, now_ms).1 == ry.1
            &&& pipe_run(t, a, o, x + y, now_ms).2 == ry.2
            &&& pipe_run(t, a, o, x + y, now_ms).3 == rx0.3 + ry.3
        }),
    decreases x.len(),
{
    if x.len() == 0 {
        assert(x + y =~= y);
        assert(pipe_run(t, a, o, x, now_ms).3 + pipe_run(t, a, o, y, now_ms).3 =~= pipe_run(
            t,
            a,
            o,
            y,
            now_ms,
        ).3);
    } else {
        let f = tr_step(t, x[0]);
        let evs = pipe_events_run(o, a, f.1, now_ms);
        lemma_pipe_run_append(f.0, evs.1, evs.0, x.skip(1), y, now_ms);
        assert((x + y).skip(1) =~= x.skip(1) + y);
        let mid = pipe_run(f.0, evs.1, evs.0, x.skip(1), now_ms);
        let tail = pipe_run(mid.0, mid.1, mid.2, y, now_ms);
        assert(evs.2 + (mid.3 + tail.3) =~= (evs.2 + mid.3) + tail.3);
    }
}

/// Running one more frame is a run then that frame's exchange.
proof fn lemma_pipe_run_snoc(
    t: TrState,
    a: AppCounters,
    o: ObsView,
    frames: Seq<crate::link::FrameView>,
    i: int,
    now_ms: i64,
)
    requires
        0 <= i < frames.len(),
    ensures
        ({
            let r = pipe_run(t, a, o, frames.take(i), now_ms);
            let f = tr_step(r.0, frames[i]);
            let evs = pipe_events_run(r.2, r.1, f.1, now_ms);
            &&& pipe_run(t, a, o, frames.take(i + 1), now_ms).0 == f.0
            &&& pipe_run(t, a, o, frames.take(i + 1), now_ms).1 == evs.1
            &&& pipe_run(t, a, o, frames.take(i + 1), now_ms).2 == evs.0
            &&& pipe_run(t, a, o, frames.take(i + 1), now_ms).3 == r.3 + evs.2
        }),
{
    assert(frames.take(i + 1) =~= frames.take(i) + seq![frames[i]]);
    lemma_pipe_run_append(t, a, o, frames.take(i), seq![frames[i]], now_ms);
    let r = pipe_run(t, a, o, frames.take(i), now_ms);
    assert(seq![frames[i]].skip(1) =~= Seq::<crate::link::FrameView>::empty());
    reveal_with_fuel(pipe_run, 2);
    let f = tr_step(r.0, frames[i]);
    let evs = pipe_events_run(r.2, r.1, f.1, now_ms);
    assert(pipe_run(r.0, r.1, r.2, seq![frames[i]], now_ms).0 == f.0);
    assert(pipe_run(r.0, r.1, r.2, seq![frames[i]], now_ms).3 =~= evs.2);
}

/// Matching outputs concatenate.
proof fn lemma_events_match_concat(
    a1: Seq<ObserverEvent>,
    a2: Seq<ObserverEvent>,
    x1: Seq<ObserverEventView>,
    x2: Seq<ObserverEventView>,
)
    requires
        observer_events_match(a1, x1),
        observer_events_match(a2, x2),
    ensures
        observer_events_match(a1 + a2, x1 + x2),
{
    assert forall|i: int|
        0 <= i < (a1 + a2).len() implies crate::observer::observer_event_matches(
        #[trigger] (a1 + a2)[i],
        (x1 + x2)[i],
    ) by {
        if i < a1.len() {
            assert((a1 + a2)[i] == a1[i] && (x1 + x2)[i] == x1[i]);
        } else {
            assert((a1 + a2)[i] == a2[i - a1.len()] && (x1 + x2)[i] == x2[i - a1.len()]);
        }
    }
}

/// The output past a watched point decomposes at any intermediate length.
proof fn lemma_skip_split(pre: Seq<ObserverEvent>, post: Seq<ObserverEvent>, n: int)
    requires
        0 <= n <= pre.len() <= post.len(),
        post.take(pre.len() as int) == pre,
    ensures
        post.skip(n) == pre.skip(n) + post.skip(pre.len() as int),
{
    assert forall|i: int| 0 <= i < pre.len() implies post[i] == pre[i] by {
        assert(post.take(pre.len() as int)[i] == post[i]);
    }
    assert(post.skip(n) =~= pre.skip(n) + post.skip(pre.len() as int));
}

/// One observer step keeps the emission discipline: whatever the step
/// appended, any infrastructure report in it is the last element and renders
/// the step's final state, and a state change emitted exactly one.
proof fn lemma_emission_step(
    pre: Seq<ObserverEvent>,
    post: Seq<ObserverEvent>,
    base_len: int,
    base: Seq<ObserverEvent>,
    state0: crate::persistent_state::PersistentState,
    pre_state: crate::persistent_state::PersistentState,
    post_state: crate::persistent_state::PersistentState,
)
    requires
        0 <= base_len,
        emission_ok_states(pre, base_len, base, state0, pre_state),
        post.len() >= pre.len(),
        post.take(pre.len() as int) == pre,
        post_state != pre_state ==> emits_one_infrastructure(pre, post, post_state),
        forall|j: int|
            pre.len() <= j < post.len() && (#[trigger] post[j]) is InfrastructureReport
                ==> event_matches_state(post[j]->InfrastructureReport_report, post_state) && j
                == post.len() - 1,
    ensures
        emission_ok_states(post, base_len, base, state0, post_state),
{
    assert(post.take(base_len) =~= pre.take(base_len));
    assert(forall|j: int| 0 <= j < pre.len() ==> post[j] == pre[j]);
    if post_state != pre_state {
        assert(post[post.len() - 1] is InfrastructureReport);
        assert(latest_infrastructure_matches(post, base_len, post_state));
    } else {
        if exists|j: int|
            pre.len() <= j < post.len() && (#[trigger] post[j]) is InfrastructureReport {
            let j = choose|j: int|
                pre.len() <= j < post.len() && (#[trigger] post[j]) is InfrastructureReport;
            assert(j == post.len() - 1);
            assert(latest_infrastructure_matches(post, base_len, post_state));
        } else {
            if pre_state == state0 && (forall|j: int|
                base_len <= j < pre.len() ==> !((#[trigger] pre[j]) is InfrastructureReport)) {
                assert(forall|j: int|
                    base_len <= j < post.len() ==> !((#[trigger] post[j])
                        is InfrastructureReport));
            } else {
                let i = choose|i: int|
                    base_len <= i < pre.len() && (#[trigger] pre[i]) is InfrastructureReport
                        && event_matches_state(pre[i]->InfrastructureReport_report, pre_state) && (
                    forall|j: int|
                        i < j < pre.len() ==> !((#[trigger] pre[j]) is InfrastructureReport));
                assert(post[i] is InfrastructureReport);
                assert(forall|j: int|
                    i < j < post.len() ==> !((#[trigger] post[j]) is InfrastructureReport));
                assert(latest_infrastructure_matches(post, base_len, post_state));
            }
        }
    }
}

/// The emission discipline, phrased over an explicit state value.
pub open spec fn emission_ok_states(
    out: Seq<ObserverEvent>,
    base_len: int,
    base: Seq<ObserverEvent>,
    state0: crate::persistent_state::PersistentState,
    current: crate::persistent_state::PersistentState,
) -> bool {
    &&& out.len() >= base_len
    &&& out.take(base_len) == base
    &&& ((current == state0 && (forall|j: int|
        base_len <= j < out.len() ==> !((#[trigger] out[j]) is InfrastructureReport)))
        || latest_infrastructure_matches(out, base_len, current))
}

/// The layered receive pipeline, bytes to observer events.
pub struct Pipeline {
    link: LinkReceiver,
    transport: TransportReceiver,
    application: Application,
    observer: Observer,
}

impl Pipeline {
    /// The link receiver's mathematical state.
    pub closed spec fn spec_link(&self) -> RxView {
        self.link@
    }

    /// The observer's value.
    pub closed spec fn spec_observer(&self) -> Observer {
        self.observer
    }

    /// Every stage is well formed.
    pub closed spec fn wf(&self) -> bool {
        rx_wf(self.link@) && self.transport.wf() && self.observer.wf()
    }

    /// Instantiate a pipeline around a fresh observer.
    ///
    /// `persistent_file` is handed to the observer; see [`Observer::new`].
    pub fn new(persistent_file: String) -> (r: Pipeline)
        ensures
            r.wf(),
            r.spec_link() == crate::framer::rx_init(),
    {
        Pipeline {
            link: LinkReceiver::new(),
            transport: TransportReceiver::new(),
            application: Application::new(),
            observer: Observer::new(persistent_file),
        }
    }

    /// The observer, for reading its state.
    pub fn observer(&self) -> (r: &Observer)
        ensures
            *r == self.spec_observer(),
    {
        &self.observer
    }

    /// The link layer counters.
    pub fn link_counters(&self) -> (r: crate::framer::Counters)
        ensures
            r.bytes_in == self.spec_link().bytes_in,
            r.frames_emitted == self.spec_link().frames_emitted,
            r.crc_failures == self.spec_link().crc_failures,
            r.short_frames == self.spec_link().short_frames,
            r.resyncs == self.spec_link().resyncs,
            r.escape_errors == self.spec_link().escape_errors,
    {
        self.link.counters()
    }

    /// The transport decoder's mathematical state.
    pub closed spec fn spec_transport(&self) -> crate::transport::TrState {
        self.transport@
    }

    /// The transport layer counters.
    pub fn transport_counters(&self) -> (r: crate::transport::TransportCounters)
        ensures
            r == self.spec_transport().counters.as_exec(),
    {
        self.transport.counters()
    }

    /// The application decoder's counters, as mathematical values.
    pub closed spec fn spec_application(&self) -> crate::application::AppCounters {
        self.application@
    }

    /// The application layer counters.
    pub fn application_counters(&self) -> (r: crate::application::ApplicationCounters)
        ensures
            r == self.spec_application().as_exec(),
    {
        self.application.counters()
    }

    /// Replace the observer's persistent state with one restored from disk;
    /// the startup infrastructure report is appended to `out`.
    pub fn restore_persistent_state(
        &mut self,
        state: PersistentState,
        out: &mut Vec<ObserverEvent>,
    )
        requires
            old(self).wf(),
            state.wf(),
        ensures
            final(self).wf(),
            final(self).spec_link() == old(self).spec_link(),
            final(self).spec_observer().spec_state() == state,
            crate::observer::emits_one_infrastructure(old(out)@, final(out)@, state),
    {
        self.observer.restore_persistent_state(state, out);
    }

    /// Feed the pipeline a slice of observed bytes, stamped with the wall
    /// clock at which they arrived; everything the bytes complete, down to
    /// observer events, is appended to `out`, in order.
    pub fn extend_from_slice(&mut self, input: &[u8], now_ms: i64, out: &mut Vec<ObserverEvent>)
        requires
            old(self).wf(),
            0 <= now_ms <= MAX_TIME_MS,
            old(self).spec_link().bytes_in + input@.len() <= u64::MAX,
        ensures
            final(self).wf(),
            final(self).spec_link() == rx_run(old(self).spec_link(), input@),
            final(self).spec_transport() == tr_run(
                old(self).spec_transport(),
                rx_run(old(self).spec_link(), input@).emitted.skip(
                    old(self).spec_link().emitted.len() as int,
                ),
            ),
            final(out)@.len() >= old(out)@.len(),
            final(out)@.take(old(out)@.len() as int) == old(out)@,
            ({
                let frames = rx_run(old(self).spec_link(), input@).emitted.skip(
                    old(self).spec_link().emitted.len() as int,
                );
                let r = pipe_run(
                    old(self).spec_transport(),
                    old(self).spec_application(),
                    old(self).spec_observer()@,
                    frames,
                    now_ms,
                );
                &&& final(self).spec_transport() == r.0
                &&& final(self).spec_application() == r.1
                &&& final(self).spec_observer()@ == r.2
                &&& observer_events_match(final(out)@.skip(old(out)@.len() as int), r.3)
            }),
            final(self).spec_observer().spec_state() != old(self).spec_observer().spec_state()
                ==> latest_infrastructure_matches(
                final(out)@,
                old(out)@.len() as int,
                final(self).spec_observer().spec_state(),
            ),
    {
        let ghost base = out@;
        let ghost base_len = out@.len() as int;
        let ghost state0 = self.observer.spec_state();
        let ghost t0 = self.transport@;
        let ghost a0 = self.application@;
        let ghost o0 = self.observer@;
        let mut frames: Vec<Frame> = Vec::new();
        self.link.extend_from_slice(input, &mut frames);
        let ghost advanced = rx_run(old(self).spec_link(), input@);
        let ghost tframes = crate::framer::frames_view(frames@);
        proof {
            assert(out@.take(base_len) =~= base);
            assert(tframes =~= advanced.emitted.skip(old(self).spec_link().emitted.len() as int));
            assert(tframes.take(0) =~= Seq::<crate::link::FrameView>::empty());
            lemma_events_match_empty(out@, base_len);
        }
        let mut fi: usize = 0;
        while fi < frames.len()
            invariant
                rx_wf(self.link@),
                self.link@ == advanced,
                self.transport.wf(),
                self.observer.wf(),
                0 <= now_ms <= MAX_TIME_MS,
                0 <= base_len,
                fi <= frames@.len(),
                tframes == crate::framer::frames_view(frames@),
                self.transport@ == tr_run(t0, tframes.take(fi as int)),
                emission_ok_states(out@, base_len, base, state0, self.observer.spec_state()),
                ({
                    let pr = pipe_run(t0, a0, o0, tframes.take(fi as int), now_ms);
                    &&& self.transport@ == pr.0
                    &&& self.application@ == pr.1
                    &&& self.observer@ == pr.2
                    &&& out@.len() >= base_len
                    &&& out@.take(base_len) == base
                    &&& observer_events_match(out@.skip(base_len), pr.3)
                }),
            decreases frames@.len() - fi,
        {
            let ghost pr_fi = pipe_run(t0, a0, o0, tframes.take(fi as int), now_ms);
            let ghost fstep = tr_step(pr_fi.0, tframes[fi as int]);
            let mut tevents: Vec<TransportEvent> = Vec::new();
            self.transport.frame(&frames[fi], &mut tevents);
            proof {
                lemma_tr_run_snoc(t0, tframes, fi as int);
                assert(tframes[fi as int] == frames@[fi as int]@);
                assert(events_view(tevents@) =~= fstep.1);
                assert(fstep.1.take(0) =~= Seq::<TransportEventView>::empty());
                assert(pr_fi.3 + Seq::<ObserverEventView>::empty() =~= pr_fi.3);
            }
            let ghost tevs = fstep.1;
            let mut ti: usize = 0;
            while ti < tevents.len()
                invariant
                    rx_wf(self.link@),
                    self.link@ == advanced,
                    self.transport.wf(),
                    self.observer.wf(),
                    0 <= now_ms <= MAX_TIME_MS,
                    0 <= base_len,
                    fi < frames@.len(),
                    ti <= tevents@.len(),
                    tframes == crate::framer::frames_view(frames@),
                    self.transport@ == tr_run(t0, tframes.take(fi + 1)),
                    self.transport@ == fstep.0,
                    tevs == events_view(tevents@),
                    tevs == fstep.1,
                    pr_fi == pipe_run(t0, a0, o0, tframes.take(fi as int), now_ms),
                    fstep == tr_step(pr_fi.0, tframes[fi as int]),
                    emission_ok_states(out@, base_len, base, state0, self.observer.spec_state()),
                    ({
                        let er = pipe_events_run(pr_fi.2, pr_fi.1, tevs.take(ti as int), now_ms);
                        &&& self.observer@ == er.0
                        &&& self.application@ == er.1
                        &&& out@.len() >= base_len
                        &&& out@.take(base_len) == base
                        &&& observer_events_match(out@.skip(base_len), pr_fi.3 + er.2)
                    }),
                decreases tevents@.len() - ti,
            {
                let ghost er_ti = pipe_events_run(pr_fi.2, pr_fi.1, tevs.take(ti as int), now_ms);
                let ghost ev = tevs[ti as int];
                let ghost tstep = obs_transport_step(er_ti.0, ev, now_ms);
                let ghost pre_out = out@;
                let ghost pre_state = self.observer.spec_state();
                self.observer.on_transport_event(&tevents[ti], now_ms, out);
                proof {
                    lemma_emission_step(
                        pre_out,
                        out@,
                        base_len,
                        base,
                        state0,
                        pre_state,
                        self.observer.spec_state(),
                    );
                    assert(tevents@[ti as int]@ == ev);
                    assert(self.observer@ == tstep.0);
                    lemma_skip_split(pre_out, out@, base_len);
                    lemma_events_match_concat(
                        pre_out.skip(base_len),
                        out@.skip(pre_out.len() as int),
                        pr_fi.3 + er_ti.2,
                        tstep.1,
                    );
                }
                let mut aevents: Vec<ApplicationEvent> = Vec::new();
                self.application.on_event(&tevents[ti], &mut aevents);
                let ghost astep = app_step(er_ti.1, ev);
                proof {
                    assert(app_events_view(aevents@) =~= astep.1);
                    assert(self.application@ == astep.0);
                    assert(astep.1.take(0) =~= Seq::<ApplicationEventView>::empty());
                    assert((pr_fi.3 + er_ti.2) + tstep.1 =~= pr_fi.3 + er_ti.2 + (tstep.1 + Seq::<
                        ObserverEventView,
                    >::empty()));
                }
                let ghost aevs = astep.1;
                let mut ai: usize = 0;
                while ai < aevents.len()
                    invariant
                        rx_wf(self.link@),
                        self.link@ == advanced,
                        self.transport.wf(),
                        self.observer.wf(),
                        0 <= base_len,
                        ai <= aevents@.len(),
                        fi < frames@.len(),
                        tframes == crate::framer::frames_view(frames@),
                        self.transport@ == tr_run(t0, tframes.take(fi + 1)),
                        self.transport@ == fstep.0,
                        self.application@ == astep.0,
                        aevs == app_events_view(aevents@),
                        emission_ok_states(
                            out@,
                            base_len,
                            base,
                            state0,
                            self.observer.spec_state(),
                        ),
                        ({
                            let ar = obs_app_run(tstep.0, aevs.take(ai as int));
                            &&& self.observer@ == ar.0
                            &&& out@.len() >= base_len
                            &&& out@.take(base_len) == base
                            &&& observer_events_match(
                                out@.skip(base_len),
                                pr_fi.3 + er_ti.2 + (tstep.1 + ar.1),
                            )
                        }),
                    decreases aevents@.len() - ai,
                {
                    let ghost ar_ai = obs_app_run(tstep.0, aevs.take(ai as int));
                    let ghost aev = aevs[ai as int];
                    let ghost astep_o = obs_application_step(ar_ai.0, aev);
                    let ghost pre_out2 = out@;
                    let ghost pre_state2 = self.observer.spec_state();
                    self.observer.on_application_event(&aevents[ai], out);
                    proof {
                        lemma_emission_step(
                            pre_out2,
                            out@,
                            base_len,
                            base,
                            state0,
                            pre_state2,
                            self.observer.spec_state(),
                        );
                        assert(aevents@[ai as int]@ == aev);
                        assert(self.observer@ == astep_o.0);
                        lemma_obs_app_run_snoc(tstep.0, aevs, ai as int);
                        lemma_skip_split(pre_out2, out@, base_len);
                        lemma_events_match_concat(
                            pre_out2.skip(base_len),
                            out@.skip(pre_out2.len() as int),
                            pr_fi.3 + er_ti.2 + (tstep.1 + ar_ai.1),
                            astep_o.1,
                        );
                        assert(pr_fi.3 + er_ti.2 + (tstep.1 + obs_app_run(
                            tstep.0,
                            aevs.take(ai + 1),
                        ).1) =~= (pr_fi.3 + er_ti.2 + (tstep.1 + ar_ai.1)) + astep_o.1);
                    }
                    ai = ai + 1;
                }
                proof {
                    assert(aevs.take(aevents@.len() as int) =~= aevs);
                    lemma_pipe_events_run_snoc(pr_fi.2, pr_fi.1, tevs, ti as int, now_ms);
                    assert(pr_fi.3 + (er_ti.2 + (tstep.1 + obs_app_run(tstep.0, aevs).1))
                        =~= pr_fi.3 + er_ti.2 + (tstep.1 + obs_app_run(tstep.0, aevs).1));
                }
                ti = ti + 1;
            }
            proof {
                assert(tevs.take(tevents@.len() as int) =~= tevs);
                lemma_pipe_run_snoc(t0, a0, o0, tframes, fi as int, now_ms);
            }
            fi = fi + 1;
        }
        proof {
            assert(tframes.take(frames@.len() as int) =~= tframes);
        }
    }
}

} // verus!
