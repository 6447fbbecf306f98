//! Fan-out of captured frames to the registered sinks.
use std::ops::ControlFlow;

use vstd::prelude::*;

use crate::error::VideoError;
use crate::video::{VideoFrame, VideoSink};

verus! {

/// What a sink answers when it is given a frame.
pub type Verdict = Result<ControlFlow<(), ()>, VideoError>;

/// Whether a sink that answered so stays registered.
pub open spec fn stays(verdict: Verdict) -> bool {
    verdict matches Ok(ControlFlow::Continue(_))
}

/// Whether `i` is an index of a sequence of length `len`.
pub open spec fn is_index(len: nat, i: int) -> bool {
    0 <= i < len
}

/// The sinks that stay registered, in their order.
pub open spec fn retained<S>(sinks: Seq<S>, verdicts: Seq<Verdict>) -> Seq<S>
    decreases sinks.len(),
{
    if sinks.len() == 0 {
        Seq::empty()
    } else {
        let rest = retained(sinks.drop_last(), verdicts.drop_last());
        if stays(verdicts.last()) {
            rest.push(sinks.last())
        } else {
            rest
        }
    }
}

/// Tells whether a sink stays registered: only if it asked for more. One that
/// signalled its end or failed does not.
pub fn sink_stays(verdict: &Verdict) -> (keep: bool)
    ensures
        keep == stays(*verdict),
{
    match verdict {
        Ok(ControlFlow::Continue(_)) => true,
        Ok(ControlFlow::Break(_)) => false,
        Err(_) => false,
    }
}

/// Pushes a frame to one sink.
fn push_to<S: VideoSink>(sink: &mut S, frame: &VideoFrame) -> (verdict: Verdict)
    ensures
        exists|handle: &mut S|
            *handle == *old(sink) && *final(handle) == *final(sink) && #[trigger] call_ensures(
                S::push_frame,
                (handle, frame),
                verdict,
            ),
{
    let ghost before = *sink;
    let verdict = sink.push_frame(frame);
    assert(exists|handle: &mut S|
        *handle == before && *final(handle) == *sink && #[trigger] call_ensures(
            S::push_frame,
            (handle, frame),
            verdict,
        ));
    verdict
}

/// Push one frame to every sink, in the order of registration, and drop the
/// sinks that signalled their end or failed.
///
/// Each sink runs [`push_frame`](VideoSink::push_frame) once on that frame; what
/// it becomes (`pushed`) and what it answers (`verdicts`) is up to the sink.
pub fn deliver<S: VideoSink>(sinks: &mut Vec<S>, frame: &VideoFrame)
    ensures
        exists|pushed: Seq<S>, verdicts: Seq<Verdict>|
            {
                &&& pushed.len() == old(sinks)@.len()
                &&& verdicts.len() == old(sinks)@.len()
                &&& forall|k: int| #[trigger]
                    is_index(old(sinks)@.len(), k) ==> exists|handle: &mut S|
                        *handle == old(sinks)@[k] && *final(handle) == pushed[k]
                            && #[trigger] call_ensures(
                            S::push_frame,
                            (handle, frame),
                            verdicts[k],
                        )
                &&& final(sinks)@ == #[trigger] retained(pushed, verdicts)
            },
{
    let ghost before = sinks@;
    let ghost mut pushed: Seq<S> = Seq::empty();
    let ghost mut verdicts: Seq<Verdict> = Seq::empty();
    let mut i: usize = 0;
    assert(sinks@ =~= retained(pushed, verdicts) + before.skip(0));
    while i < sinks.len()
        invariant
            before == old(sinks)@,
            pushed.len() == verdicts.len(),
            pushed.len() <= before.len(),
            i == retained(pushed, verdicts).len(),
            sinks@ == retained(pushed, verdicts) + before.skip(pushed.len() as int),
            forall|k: int| #[trigger]
                is_index(pushed.len(), k) ==> exists|handle: &mut S|
                    *handle == before[k] && *final(handle) == pushed[k]
                        && #[trigger] call_ensures(S::push_frame, (handle, frame), verdicts[k]),
        decreases before.len() - pushed.len(),
    {
        let ghost here = sinks@[i as int];
        let verdict = push_to(&mut sinks[i], frame);
        let ghost after = sinks@[i as int];
        let ghost pushed1 = pushed.push(after);
        let ghost verdicts1 = verdicts.push(verdict);
        proof {
            assert(here == before[pushed.len() as int]);
            assert(pushed1.drop_last() =~= pushed);
            assert(verdicts1.drop_last() =~= verdicts);
            assert forall|k: int| #[trigger] is_index(pushed1.len(), k) implies exists|
                handle: &mut S,
            |
                *handle == before[k] && *final(handle) == pushed1[k] && #[trigger] call_ensures(
                    S::push_frame,
                    (handle, frame),
                    verdicts1[k],
                ) by {
                if k < pushed.len() {
                    assert(is_index(pushed.len(), k));
                    assert(pushed1[k] == pushed[k]);
                    assert(verdicts1[k] == verdicts[k]);
                } else {
                    assert(pushed1[k] == after);
                    assert(verdicts1[k] == verdict);
                }
            }
            pushed = pushed1;
            verdicts = verdicts1;
        }
        if sink_stays(&verdict) {
            i = i + 1;
        } else {
            sinks.remove(i);
        }
        assert(sinks@ =~= retained(pushed, verdicts) + before.skip(pushed.len() as int));
    }
    assert(sinks@ =~= retained(pushed, verdicts));
}

/// What looking for newly registered sinks found.
pub enum SinkPoll<S> {
    /// A sink was registered.
    Registered(S),
    /// No sink is waiting to be registered.
    Empty,
    /// No sink will ever be registered again: the capture was dropped.
    Closed,
}

/// What the dispatch loop does next.
#[derive(Debug, Clone, Copy, PartialEq, Eq, Structural)]
pub enum DispatchStep {
    /// Look for newly registered sinks, without blocking.
    PollSinks,
    /// Wait for the next frame.
    AwaitFrame,
    /// End the loop.
    Stop,
}

/// The dispatch loop's state: the registered sinks, and the frame that was taken
/// and not handed out yet.
pub struct Dispatcher<S> {
    sinks: Vec<S>,
    kept: Option<VideoFrame>,
}

/// The state of a [`Dispatcher`] as its contracts speak of it.
pub struct DispatchView<S> {
    /// The registered sinks, oldest first.
    pub sinks: Seq<S>,
    /// The frame that was taken and not handed out yet.
    pub kept: Option<VideoFrame>,
}

impl<S> View for Dispatcher<S> {
    type V = DispatchView<S>;

    closed spec fn view(&self) -> DispatchView<S> {
        DispatchView { sinks: self.sinks@, kept: self.kept }
    }
}

impl<S: VideoSink> Dispatcher<S> {
    /// A dispatcher without sinks, whose loop starts by looking for some.
    pub fn new() -> (start: (Self, DispatchStep))
        ensures
            start.0@ == (DispatchView { sinks: Seq::<S>::empty(), kept: None }),
            start.1 == DispatchStep::PollSinks,
    {
        (Dispatcher { sinks: Vec::new(), kept: None }, DispatchStep::PollSinks)
    }

    /// Handle what a look for newly registered sinks found.
    ///
    /// Sinks are accepted until no more are waiting. Then the frame that was taken
    /// before the look, if there is one, goes to all sinks, so that none misses a
    /// frame that was sent after its registration. After that the sinks are looked
    /// for once more, before the next frame is waited for. The loop ends when no
    /// sink can be registered any more.
    pub fn on_sinks(&mut self, polled: SinkPoll<S>) -> (step: DispatchStep)
        ensures
            polled matches SinkPoll::Registered(sink) ==> {
                &&& final(self)@ == (DispatchView {
                    sinks: old(self)@.sinks.push(sink),
                    kept: old(self)@.kept,
                })
                &&& step == DispatchStep::PollSinks
            },
            polled is Empty ==> step == if old(self)@.kept is Some {
                DispatchStep::PollSinks
            } else {
                DispatchStep::AwaitFrame
            },
            polled is Closed ==> step == DispatchStep::Stop,
            !(polled is Registered) ==> final(self)@.kept is None,
            !(polled is Registered) && old(self)@.kept is None ==> final(self)@ == old(self)@,
            !(polled is Registered) && old(self)@.kept is Some ==> exists|
                pushed: Seq<S>,
                verdicts: Seq<Verdict>,
            |
                {
                    &&& pushed.len() == old(self)@.sinks.len()
                    &&& verdicts.len() == old(self)@.sinks.len()
                    &&& forall|k: int| #[trigger]
                        is_index(old(self)@.sinks.len(), k) ==> exists|handle: &mut S|
                            *handle == old(self)@.sinks[k] && *final(handle) == pushed[k]
                                && #[trigger] call_ensures(
                                S::push_frame,
                                (handle, &old(self)@.kept->0),
                                verdicts[k],
                            )
                    &&& final(self)@.sinks == #[trigger] retained(pushed, verdicts)
                },
    {
        match polled {
            SinkPoll::Registered(sink) => {
                self.sinks.push(sink);
                DispatchStep::PollSinks
            },
            SinkPoll::Empty => match self.kept.take() {
                Some(frame) => {
                    deliver(&mut self.sinks, &frame);
                    DispatchStep::PollSinks
                },
                None => DispatchStep::AwaitFrame,
            },
            SinkPoll::Closed => {
                match self.kept.take() {
                    Some(frame) => {
                        deliver(&mut self.sinks, &frame);
                    },
                    None => {},
                }
                DispatchStep::Stop
            },
        }
    }

    /// Keep a frame that was taken, until the sinks were looked for again; `None`
    /// means that the capture ended.
    pub fn on_frame(&mut self, frame: Option<VideoFrame>) -> (step: DispatchStep)
        requires
            old(self)@.kept is None,
        ensures
            final(self)@ == (DispatchView { sinks: old(self)@.sinks, kept: frame }),
            step == if frame is Some {
                DispatchStep::PollSinks
            } else {
                DispatchStep::Stop
            },
    {
        let step = if frame.is_some() {
            DispatchStep::PollSinks
        } else {
            DispatchStep::Stop
        };
        self.kept = frame;
        step
    }
}

/// The state after `new` sinks were registered one after the other.
pub open spec fn with_registered<S>(state: DispatchView<S>, new: Seq<S>) -> DispatchView<S>
    decreases new.len(),
{
    if new.len() == 0 {
        state
    } else {
        let before = with_registered(state, new.drop_last());
        DispatchView { sinks: before.sinks.push(new.last()), kept: before.kept }
    }
}

/// Registering sinks adds them behind the others and keeps the frame at hand.
proof fn lemma_with_registered<S>(state: DispatchView<S>, new: Seq<S>)
    ensures
        with_registered(state, new).sinks == state.sinks + new,
        with_registered(state, new).kept == state.kept,
    decreases new.len(),
{
    if new.len() > 0 {
        lemma_with_registered(state, new.drop_last());
        assert(new.drop_last().push(new.last()) =~= new);
        assert(with_registered(state, new).sinks =~= state.sinks + new);
    } else {
        assert(state.sinks + new =~= state.sinks);
    }
}

/// A sink that was registered before a frame was handed out gets that frame, also
/// if the loop was already waiting for the frame at the time: the sinks found by the
/// look that follows the frame, `new`, are handed it like those known before.
pub proof fn law_no_frame_missed<S: VideoSink>(
    state: DispatchView<S>,
    new: Seq<S>,
    pushed: Seq<S>,
    verdicts: Seq<Verdict>,
    i: int,
)
    requires
        state.kept is Some,
        forall|k: int| #[trigger]
            is_index(with_registered(state, new).sinks.len(), k) ==> exists|handle: &mut S|
                *handle == with_registered(state, new).sinks[k] && *final(handle) == pushed[k]
                    && #[trigger] call_ensures(
                    S::push_frame,
                    (handle, &with_registered(state, new).kept->0),
                    verdicts[k],
                ),
        0 <= i < new.len(),
    ensures
        exists|handle: &mut S|
            *handle == new[i] && *final(handle) == pushed[state.sinks.len() + i]
                && #[trigger] call_ensures(
                S::push_frame,
                (handle, &state.kept->0),
                verdicts[state.sinks.len() + i],
            ),
{
    lemma_with_registered(state, new);
    let k = state.sinks.len() + i;
    assert(is_index(with_registered(state, new).sinks.len(), k));
    assert(with_registered(state, new).sinks[k] == new[i]);
}

/// While every sink asks for more, every sink stays, in its place.
pub proof fn law_all_stay<S>(sinks: Seq<S>, verdicts: Seq<Verdict>)
    requires
        sinks.len() == verdicts.len(),
        forall|i: int| 0 <= i < verdicts.len() ==> stays(#[trigger] verdicts[i]),
    ensures
        retained(sinks, verdicts) == sinks,
    decreases sinks.len(),
{
    if sinks.len() > 0 {
        law_all_stay(sinks.drop_last(), verdicts.drop_last());
        assert(sinks.drop_last().push(sinks.last()) =~= sinks);
    } else {
        assert(retained(sinks, verdicts) =~= sinks);
    }
}

/// A sink that signals its end or fails is gone, and to the other sinks it is
/// as if it had never been registered.
pub proof fn law_stopped_sink_is_gone<S>(sinks: Seq<S>, verdicts: Seq<Verdict>, i: int)
    requires
        sinks.len() == verdicts.len(),
        0 <= i < sinks.len(),
        !stays(verdicts[i]),
    ensures
        retained(sinks, verdicts) == retained(sinks.remove(i), verdicts.remove(i)),
        retained(sinks, verdicts).len() < sinks.len(),
    decreases sinks.len(),
{
    let s = sinks.drop_last();
    let v = verdicts.drop_last();
    lemma_retained_len(s, v);
    if i == sinks.len() - 1 {
        assert(sinks.remove(i) =~= s);
        assert(verdicts.remove(i) =~= v);
    } else {
        law_stopped_sink_is_gone(s, v, i);
        assert(sinks.remove(i).drop_last() =~= s.remove(i));
        assert(verdicts.remove(i).drop_last() =~= v.remove(i));
        assert(sinks.remove(i).last() == sinks.last());
        assert(verdicts.remove(i).last() == verdicts.last());
    }
}

/// No sink is retained twice.
proof fn lemma_retained_len<S>(sinks: Seq<S>, verdicts: Seq<Verdict>)
    requires
        sinks.len() == verdicts.len(),
    ensures
        retained(sinks, verdicts).len() <= sinks.len(),
    decreases sinks.len(),
{
    if sinks.len() > 0 {
        lemma_retained_len(sinks.drop_last(), verdicts.drop_last());
    }
}

/// How many of the first `i` answers asked for more.
pub open spec fn stayed_before(verdicts: Seq<Verdict>, i: int) -> int
    decreases i,
{
    if i <= 0 {
        0
    } else {
        stayed_before(verdicts, i - 1) + if stays(verdicts[i - 1]) {
            1int
        } else {
            0
        }
    }
}

/// Later answers do not change how many stayed before.
proof fn lemma_stayed_before(a: Seq<Verdict>, b: Seq<Verdict>, i: int)
    requires
        0 <= i <= a.len(),
        i <= b.len(),
        forall|j: int| 0 <= j < i ==> a[j] == b[j],
    ensures
        stayed_before(a, i) == stayed_before(b, i),
        0 <= stayed_before(a, i) <= i,
    decreases i,
{
    if i > 0 {
        lemma_stayed_before(a, b, i - 1);
    }
}

/// More sinks stayed before a later one.
proof fn lemma_stayed_grows(verdicts: Seq<Verdict>, i: int, j: int)
    requires
        0 <= i < j <= verdicts.len(),
    ensures
        stayed_before(verdicts, i) <= stayed_before(verdicts, j),
        stays(verdicts[i]) ==> stayed_before(verdicts, i) < stayed_before(verdicts, j),
    decreases j,
{
    if i < j - 1 {
        lemma_stayed_grows(verdicts, i, j - 1);
    }
}

/// Where a sink that stays is found among the sinks that stay.
proof fn lemma_retained_place<S>(sinks: Seq<S>, verdicts: Seq<Verdict>, i: int)
    requires
        sinks.len() == verdicts.len(),
        0 <= i < sinks.len(),
    ensures
        retained(sinks, verdicts).len() == stayed_before(verdicts, verdicts.len() as int),
        stays(verdicts[i]) ==> {
            &&& 0 <= stayed_before(verdicts, i) < retained(sinks, verdicts).len()
            &&& retained(sinks, verdicts)[stayed_before(verdicts, i)] == sinks[i]
        },
    decreases sinks.len(),
{
    let n = sinks.len() as int;
    let s = sinks.drop_last();
    let v = verdicts.drop_last();
    lemma_stayed_before(v, verdicts, n - 1);
    lemma_stayed_before(v, verdicts, if i < n - 1 {
        i
    } else {
        n - 1
    });
    if n > 1 {
        lemma_retained_place(
            s,
            v,
            if i < n - 1 {
                i
            } else {
                0
            },
        );
    } else {
        assert(retained(s, v).len() == 0);
    }
}

/// Every sink among those that stay is one that was there before.
proof fn lemma_retained_origin<S>(sinks: Seq<S>, verdicts: Seq<Verdict>, p: int) -> (i: int)
    requires
        sinks.len() == verdicts.len(),
        0 <= p < retained(sinks, verdicts).len(),
    ensures
        0 <= i < sinks.len(),
        stays(verdicts[i]),
        stayed_before(verdicts, i) == p,
    decreases sinks.len(),
{
    let n = sinks.len() as int;
    let s = sinks.drop_last();
    let v = verdicts.drop_last();
    lemma_stayed_before(v, verdicts, n - 1);
    if n > 1 {
        lemma_retained_place(s, v, 0);
    }
    if p < retained(s, v).len() {
        let i = lemma_retained_origin(s, v, p);
        lemma_stayed_before(v, verdicts, i);
        i
    } else {
        n - 1
    }
}

/// Whether frames were handed out one after the other: `sinks` are the registered
/// sinks before each frame and after the last, `pushed` what they became by the
/// frame, and `verdicts` what they answered. Sinks that were registered meanwhile
/// follow those that stayed.
pub open spec fn is_dispatch<S>(
    sinks: Seq<Seq<S>>,
    pushed: Seq<Seq<S>>,
    verdicts: Seq<Seq<Verdict>>,
) -> bool {
    &&& sinks.len() == verdicts.len() + 1
    &&& pushed.len() == verdicts.len()
    &&& forall|k: int| #[trigger]
        is_index(verdicts.len(), k) ==> {
            &&& pushed[k].len() == sinks[k].len()
            &&& verdicts[k].len() == sinks[k].len()
            &&& retained(pushed[k], verdicts[k]).is_prefix_of(sinks[k + 1])
        }
}

/// The place, before frame `k`, of the sink that stood at `i` before the first
/// frame, if it is still registered.
pub open spec fn place(verdicts: Seq<Seq<Verdict>>, i: int, k: int) -> Option<int>
    decreases k,
{
    if k <= 0 {
        Some(i)
    } else {
        match place(verdicts, i, k - 1) {
            Some(p) => if stays(verdicts[k - 1][p]) {
                Some(stayed_before(verdicts[k - 1], p))
            } else {
                None
            },
            None => None,
        }
    }
}

/// A sink before frame `k`: as it was registered, or as the frame before left it.
pub open spec fn sink_before<S>(
    first: Seq<S>,
    pushed: Seq<Seq<S>>,
    verdicts: Seq<Seq<Verdict>>,
    i: int,
    k: int,
) -> S {
    if k <= 0 {
        first[i]
    } else {
        pushed[k - 1][place(verdicts, i, k - 1)->0]
    }
}

/// Whether sink `i` asked for more at each of the first `k` frames.
pub open spec fn stayed_through(verdicts: Seq<Seq<Verdict>>, i: int, k: int) -> bool {
    forall|j: int| #[trigger]
        is_index(k as nat, j) ==> (place(verdicts, i, j) matches Some(p) && stays(verdicts[j][p]))
}

/// A registered sink gets every frame, once and in order, up to and including the
/// first one that it does not answer with a request for more, and none after it:
/// before frame `k` it is registered exactly if it asked for more at all frames
/// before, and it is then what the frame before made of it. What other sinks
/// answer makes no difference.
pub proof fn law_every_frame_in_order<S>(
    sinks: Seq<Seq<S>>,
    pushed: Seq<Seq<S>>,
    verdicts: Seq<Seq<Verdict>>,
    i: int,
    k: int,
)
    requires
        is_dispatch(sinks, pushed, verdicts),
        0 <= i < sinks[0].len(),
        0 <= k <= verdicts.len(),
    ensures
        place(verdicts, i, k) is Some <==> stayed_through(verdicts, i, k),
        place(verdicts, i, k) matches Some(p) ==> 0 <= p < sinks[k].len() && sinks[k][p]
            == sink_before(sinks[0], pushed, verdicts, i, k),
    decreases k,
{
    if k > 0 {
        law_every_frame_in_order(sinks, pushed, verdicts, i, k - 1);
        assert(is_index(verdicts.len(), k - 1));
        let before = place(verdicts, i, k - 1);
        if before is Some {
            let p = before->0;
            lemma_retained_place(pushed[k - 1], verdicts[k - 1], p);
            assert forall|j: int| #[trigger] is_index(k as nat, j) && place(
                verdicts,
                i,
                k,
            ) is Some implies (place(verdicts, i, j) matches Some(q) && stays(verdicts[j][q])) by {
                if j < k - 1 {
                    assert(is_index((k - 1) as nat, j));
                }
            }
        }
        if stayed_through(verdicts, i, k) {
            assert(is_index(k as nat, k - 1));
        }
    }
}

/// Sinks that are still registered stand in the order of their registration.
pub proof fn law_registration_order<S>(
    sinks: Seq<Seq<S>>,
    pushed: Seq<Seq<S>>,
    verdicts: Seq<Seq<Verdict>>,
    i: int,
    j: int,
    k: int,
)
    requires
        is_dispatch(sinks, pushed, verdicts),
        0 <= i < j < sinks[0].len(),
        0 <= k <= verdicts.len(),
        place(verdicts, i, k) is Some,
        place(verdicts, j, k) is Some,
    ensures
        place(verdicts, i, k)->0 < place(verdicts, j, k)->0,
    decreases k,
{
    if k > 0 {
        law_registration_order(sinks, pushed, verdicts, i, j, k - 1);
        law_every_frame_in_order(sinks, pushed, verdicts, i, k - 1);
        law_every_frame_in_order(sinks, pushed, verdicts, j, k - 1);
        assert(is_index(verdicts.len(), k - 1));
        lemma_stayed_grows(
            verdicts[k - 1],
            place(verdicts, i, k - 1)->0,
            place(verdicts, j, k - 1)->0,
        );
    }
}

/// While no sink is registered meanwhile, a frame goes to nobody but the sinks
/// that were registered before the first one.
pub proof fn law_nobody_else<S>(
    sinks: Seq<Seq<S>>,
    pushed: Seq<Seq<S>>,
    verdicts: Seq<Seq<Verdict>>,
    k: int,
    p: int,
)
    requires
        is_dispatch(sinks, pushed, verdicts),
        forall|j: int| #[trigger]
            is_index(verdicts.len(), j) ==> sinks[j + 1] == retained(pushed[j], verdicts[j]),
        0 <= k <= verdicts.len(),
        0 <= p < sinks[k].len(),
    ensures
        exists|i: int|
            0 <= i < sinks[0].len() && #[trigger] place(verdicts, i, k) == Some(p),
    decreases k,
{
    if k == 0 {
        assert(place(verdicts, p, 0) == Some(p));
    } else {
        assert(is_index(verdicts.len(), k - 1));
        let q = lemma_retained_origin(pushed[k - 1], verdicts[k - 1], p);
        law_nobody_else(sinks, pushed, verdicts, k - 1, q);
        let i = choose|i: int|
            0 <= i < sinks[0].len() && #[trigger] place(verdicts, i, k - 1) == Some(q);
        assert(place(verdicts, i, k) == Some(p));
    }
}

/// What each of a run of frames does to a registered sink: it is handed the frame
/// in the state in which the frame before left it.
pub proof fn law_sink_is_handed_each_frame<S: VideoSink>(
    frames: Seq<VideoFrame>,
    sinks: Seq<Seq<S>>,
    pushed: Seq<Seq<S>>,
    verdicts: Seq<Seq<Verdict>>,
    i: int,
    k: int,
)
    requires
        is_dispatch(sinks, pushed, verdicts),
        frames.len() == verdicts.len(),
        forall|j: int, p: int| #[trigger]
            is_index(frames.len(), j) && #[trigger] is_index(sinks[j].len(), p) ==> exists|
                handle: &mut S,
            |
                *handle == sinks[j][p] && *final(handle) == pushed[j][p] && #[trigger] call_ensures(
                    S::push_frame,
                    (handle, &frames[j]),
                    verdicts[j][p],
                ),
        0 <= i < sinks[0].len(),
        0 <= k < frames.len(),
        stayed_through(verdicts, i, k),
    ensures
        place(verdicts, i, k) matches Some(p) && exists|handle: &mut S|
            *handle == sink_before(sinks[0], pushed, verdicts, i, k) && *final(handle)
                == sink_before(sinks[0], pushed, verdicts, i, k + 1) && #[trigger] call_ensures(
                S::push_frame,
                (handle, &frames[k]),
                verdicts[k][p],
            ),
{
    law_every_frame_in_order(sinks, pushed, verdicts, i, k);
    let p = place(verdicts, i, k)->0;
    assert(is_index(frames.len(), k));
    assert(is_index(sinks[k].len(), p));
}

/// Only a sink that asks for more stays: not one that signalled its end, and not
/// one that failed, whatever the failure.
pub proof fn law_who_stays(verdict: Verdict)
    ensures
        verdict == Ok::<ControlFlow<(), ()>, VideoError>(ControlFlow::Continue(())) ==> stays(
            verdict,
        ),
        verdict == Ok::<ControlFlow<(), ()>, VideoError>(ControlFlow::Break(())) ==> !stays(
            verdict,
        ),
        verdict is Err ==> !stays(verdict),
{
}

/// No sink is left out of a delivery: every place in the list counts.
pub proof fn law_every_place_counts(len: nat, i: int)
    ensures
        is_index(len, i) <==> 0 <= i && i < len,
{
}

} // verus!
