use std::time::{Duration, Instant};
use tokio_timer::Delay;
use vstd::prelude::*;
use crate::poll::Async;
use crate::value::{Value, ValueState};

verus! {

#[verifier::external_type_specification]
#[verifier::external_body]
pub struct ExInstant(Instant);

#[verifier::external_type_specification]
#[verifier::external_body]
pub struct ExDelay(Delay);

#[verifier::external_type_specification]
#[verifier::external_body]
pub struct ExTimerError(tokio_timer::Error);

/// What `Instant::checked_add(now, duration)` returns: the instant `duration` after
/// `now`, or `None` when that cannot be represented.
pub uninterp spec fn instant_checked_add(now: Instant, duration: Duration) -> Option<Instant>;

/// What `tokio_timer::Delay::deadline` returns: the instant at which the timer fires.
pub uninterp spec fn delay_deadline(delay: Delay) -> Instant;

/// Calls `Instant::checked_add`; the result is the named one.
#[verifier::external_body]
fn deadline_after(now: Instant, duration: Duration) -> (res: Option<Instant>)
    ensures
        res == instant_checked_add(now, duration),
{
    now.checked_add(duration)
}

/// Calls `tokio_timer::Delay::new`: a timer that fires at `deadline` (which is what
/// its `deadline()` then returns; `Delay::new` stores it as is).
#[verifier::external_body]
fn new_delay(deadline: Instant) -> (res: Delay)
    ensures
        delay_deadline(res) == deadline,
{
    Delay::new(deadline)
}

/// Why a poll of a [`DelayState`] could not go on.
#[derive(Debug, Clone, Copy, PartialEq, Eq)]
pub enum DelayFault {
    /// The deadline of a new entry (now plus the delay) cannot be represented.
    DeadlineOverflow,
    /// The front entry already handed out its value (after it carried the end of
    /// the stream or an error) and its timer fired again.
    SpentEntry,
}

/// What a delayed entry carries: an item or the end of the stream, or an error.
pub type Entry<T, E> = Result<Option<T>, E>;

/// A stream combinator that holds each event of its source (item, end of stream or
/// error) back until the delay has passed since it arrived, and hands the events out
/// in the order they arrived.
///
/// One poll is: [`DelayState::poll`] with the result of polling the upstream source;
/// when that answers `Ok(None)`, the front entry's timer ([`DelayState::front_timer`])
/// is polled, and its outcome goes to [`DelayState::after_timer`], which decides what
/// the poll returns.
pub struct DelayState<S, F, T, E> {
    /// The upstream source; polling it is up to the owner of this state.
    pub stream: S,
    duration: Duration,
    buffer: Vec<ValueState<Delay, Entry<T, E>>>,
    delay_future: Option<ValueState<Delay, Entry<T, E>>>,
    get_now: F,
}

/// The entry that an upstream poll result brings, if any: an item or the end of
/// the stream, or an error; "not ready" brings none.
pub open spec fn arrival<T, E>(upstream: Result<Async<Option<T>>, E>) -> Option<Entry<T, E>> {
    match upstream {
        Ok(Async::NotReady) => None,
        Ok(Async::Ready(v)) => Some(Ok(v)),
        Err(e) => Some(Err(e)),
    }
}

/// The pending entries `q` with the arrival of `upstream` added at the back.
pub open spec fn with_arrival<T, E>(q: Seq<Option<Entry<T, E>>>, upstream: Result<Async<Option<T>>, E>) -> Seq<Option<Entry<T, E>>> {
    match arrival(upstream) {
        None => q,
        Some(x) => q.push(Some(x)),
    }
}

/// The front entry of `q` was handed out as `res`, leaving `q2`: an item leaves the
/// queue, while the end of the stream or an error stays at the front, spent.
pub open spec fn handed_out<T, E>(q: Seq<Option<Entry<T, E>>>, q2: Seq<Option<Entry<T, E>>>, res: Result<Async<Option<T>>, E>) -> bool {
    q.len() > 0 && match q[0] {
        Some(Ok(Some(item))) => res == Ok::<Async<Option<T>>, E>(Async::Ready(Some(item))) && q2 == q.drop_first(),
        Some(Ok(None)) => res == Ok::<Async<Option<T>>, E>(Async::Ready(None)) && q2 == q.update(0, None),
        Some(Err(e)) => res == Err::<Async<Option<T>>, E>(e) && q2 == q.update(0, None),
        None => false,
    }
}

/// One whole poll that did not fail, from the pending entries `q0` to `q1` with
/// result `res`: the arrival of `upstream` joins the back, then either nothing is
/// handed out ("not ready") or the front entry is.
pub open spec fn delay_step<T, E>(
    q0: Seq<Option<Entry<T, E>>>,
    upstream: Result<Async<Option<T>>, E>,
    q1: Seq<Option<Entry<T, E>>>,
    res: Result<Async<Option<T>>, E>,
) -> bool {
    let q = with_arrival(q0, upstream);
    ||| res == Ok::<Async<Option<T>>, E>(Async::NotReady) && q1 == q
    ||| handed_out(q, q1, res)
}

impl<S, F, T, E> DelayState<S, F, T, E> {
    /// The upstream source.
    pub closed spec fn upstream(&self) -> S {
        self.stream
    }

    /// The clock.
    pub closed spec fn clock(&self) -> F {
        self.get_now
    }

    /// How long each event is held back.
    pub closed spec fn duration(&self) -> Duration {
        self.duration
    }

    /// The entries waiting to be handed out, oldest first. The front one is the one
    /// whose timer is polled; `None` marks a front entry that already handed out its
    /// value.
    pub closed spec fn pending(&self) -> Seq<Option<Entry<T, E>>> {
        match self.delay_future {
            None => Seq::empty(),
            Some(front) => seq![front.held()] + Seq::new(
                self.buffer@.len(),
                |i: int| self.buffer@[self.buffer@.len() - 1 - i].held(),
            ),
        }
    }

    /// The timers of the pending entries, in the same order.
    pub closed spec fn timers(&self) -> Seq<Delay> {
        match self.delay_future {
            None => Seq::empty(),
            Some(front) => seq![front.inner()] + Seq::new(
                self.buffer@.len(),
                |i: int| self.buffer@[self.buffer@.len() - 1 - i].inner(),
            ),
        }
    }

    /// Between polls: nothing is buffered without a front entry, buffered entries
    /// still hold their values, and the clock can be read.
    pub closed spec fn wf(&self) -> bool
        where F: Fn() -> Instant
    {
        &&& self.delay_future is None ==> self.buffer@.len() == 0
        &&& forall|i: int| 0 <= i < self.buffer@.len() ==> (#[trigger] self.buffer@[i]).held() is Some
        &&& call_requires(self.get_now, ())
    }

    /// What [`DelayState::poll`] does, from `self` to `next`, returning `res`. An
    /// upstream result that brings an event reads the clock once, at `now`; the
    /// event's timer is set for `now` plus the delay, and the event joins the back of
    /// the queue with that timer; when that deadline cannot be represented, nothing
    /// changes and the result is `DeadlineOverflow`. "Not ready" reads no clock and
    /// changes nothing. Then, with nothing pending, the poll is "not ready"
    /// (`Ok(Some(..))`); otherwise the front timer is to be polled (`Ok(None)`).
    pub open spec fn arrived(self, upstream: Result<Async<Option<T>>, E>, next: Self, res: Result<Option<Result<Async<Option<T>>, E>>, DelayFault>) -> bool
        where F: Fn() -> Instant
    {
        &&& next.wf()
        &&& next.upstream() == self.upstream()
        &&& next.clock() == self.clock()
        &&& next.duration() == self.duration()
        &&& match arrival(upstream) {
            None => {
                &&& next.pending() == self.pending()
                &&& next.timers() == self.timers()
                &&& res == if self.pending().len() == 0 {
                    Ok::<Option<Result<Async<Option<T>>, E>>, DelayFault>(Some(Ok(Async::NotReady)))
                } else {
                    Ok::<Option<Result<Async<Option<T>>, E>>, DelayFault>(None)
                }
            },
            Some(x) => exists|now: Instant| #[trigger] call_ensures(self.clock(), (), now)
                && match instant_checked_add(now, self.duration()) {
                    None => {
                        &&& res == Err::<Option<Result<Async<Option<T>>, E>>, DelayFault>(DelayFault::DeadlineOverflow)
                        &&& next.pending() == self.pending()
                        &&& next.timers() == self.timers()
                    },
                    Some(deadline) => {
                        &&& res == Ok::<Option<Result<Async<Option<T>>, E>>, DelayFault>(None)
                        &&& next.pending() == self.pending().push(Some(x))
                        &&& next.timers().drop_last() == self.timers()
                        &&& next.timers().len() == self.timers().len() + 1
                        &&& delay_deadline(next.timers().last()) == deadline
                    },
                },
        }
    }

    /// What [`DelayState::after_timer`] does, from `self` to `next`, returning `res`,
    /// given the outcome `fired` of polling the front timer. When it fired, the front
    /// entry is handed out: an item leaves the queue, while the end of the stream or an
    /// error is handed out and stays at the front, spent (a spent front entry whose
    /// timer fires again is the `SpentEntry` fault, and nothing changes). When it has
    /// not fired, when no timer drives it (an error), or when nothing is pending, the
    /// poll is "not ready" and nothing changes.
    pub open spec fn timer_handled(self, fired: Result<Async<()>, tokio_timer::Error>, next: Self, res: Result<Result<Async<Option<T>>, E>, DelayFault>) -> bool
        where F: Fn() -> Instant
    {
        &&& next.wf()
        &&& next.upstream() == self.upstream()
        &&& next.clock() == self.clock()
        &&& next.duration() == self.duration()
        &&& if fired matches Ok(Async::Ready(_)) && self.pending().len() > 0 {
            if self.pending()[0] is None {
                &&& res == Err::<Result<Async<Option<T>>, E>, DelayFault>(DelayFault::SpentEntry)
                &&& next.pending() == self.pending()
                &&& next.timers() == self.timers()
            } else {
                &&& res matches Ok(r) && handed_out(self.pending(), next.pending(), r)
                &&& next.timers() == if self.pending()[0] matches Some(Ok(Some(_))) {
                    self.timers().drop_first()
                } else {
                    self.timers()
                }
            }
        } else {
            &&& res == Ok::<Result<Async<Option<T>>, E>, DelayFault>(Ok(Async::NotReady))
            &&& next.pending() == self.pending()
            &&& next.timers() == self.timers()
        }
    }

    /// First step of a poll: feeds the result of polling the upstream source, as
    /// [`DelayState::arrived`] says.
    pub fn poll(&mut self, upstream: Result<Async<Option<T>>, E>) -> (res: Result<Option<Result<Async<Option<T>>, E>>, DelayFault>)
        where F: Fn() -> Instant
        requires
            old(self).wf(),
        ensures
            old(self).arrived(upstream, *final(self), res),
    {
        let future_value: Option<Entry<T, E>> = match upstream {
            Ok(Async::NotReady) => None,
            Ok(Async::Ready(v)) => Some(Ok(v)),
            Err(e) => Some(Err(e)),
        };
        match future_value {
            Some(v) => {
                let now = (self.get_now)();
                let deadline = match deadline_after(now, self.duration) {
                    Some(d) => d,
                    None => {
                        assert(call_ensures(old(self).clock(), (), now));
                        return Err(DelayFault::DeadlineOverflow);
                    }
                };
                let entry = new_delay(deadline).value(v);
                if self.delay_future.is_none() {
                    self.delay_future = Some(entry);
                    assert(self.pending() =~= old(self).pending().push(Some(v)));
                    assert(self.timers().drop_last() =~= old(self).timers());
                } else {
                    self.buffer.insert(0, entry);
                    assert(self.pending() =~= old(self).pending().push(Some(v)));
                    assert(self.timers().drop_last() =~= old(self).timers());
                }
                assert(call_ensures(old(self).clock(), (), now));
                Ok(None)
            }
            None => {
                if self.delay_future.is_none() {
                    Ok(Some(Ok(Async::NotReady)))
                } else {
                    Ok(None)
                }
            }
        }
    }

    /// Lends the front entry's timer, for polling it; nothing else changes.
    pub fn front_timer(&mut self) -> (timer: &mut Delay)
        where F: Fn() -> Instant
        requires
            old(self).wf(),
            old(self).pending().len() > 0,
        ensures
            *timer == old(self).timers()[0],
            final(self).timers() == old(self).timers().update(0, *final(timer)),
            final(self).pending() == old(self).pending(),
            final(self).wf(),
            final(self).upstream() == old(self).upstream(),
            final(self).clock() == old(self).clock(),
            final(self).duration() == old(self).duration(),
    {
        match &mut self.delay_future {
            Some(front) => front.future_mut(),
            None => vstd::pervasive::unreached(),
        }
    }

    /// Second step of a poll, when the first answered `Ok(None)`: finishes it given
    /// the outcome `fired` of polling the front entry's timer, as
    /// [`DelayState::timer_handled`] says.
    pub fn after_timer(&mut self, fired: Result<Async<()>, tokio_timer::Error>) -> (res: Result<Result<Async<Option<T>>, E>, DelayFault>)
        where F: Fn() -> Instant
        requires
            old(self).wf(),
        ensures
            old(self).timer_handled(fired, *final(self), res),
    {
        let ghost q = self.pending();
        let ghost ts = self.timers();
        let polled: Result<Async<Option<Entry<T, E>>>, tokio_timer::Error> = match &mut self.delay_future {
            None => Ok(Async::Ready(None)),
            Some(front) => {
                let elapsed = match &fired {
                    Ok(Async::Ready(())) => true,
                    _ => false,
                };
                if elapsed && !front.has_value() {
                    return Err(DelayFault::SpentEntry);
                }
                match front.poll(fired) {
                    Ok(Async::Ready(x)) => Ok(Async::Ready(Some(x))),
                    Ok(Async::NotReady) => Ok(Async::NotReady),
                    Err(e) => Err(e),
                }
            }
        };
        assert(polled matches Ok(Async::Ready(Some(_))) ==> self.pending() =~= q.update(0, None));
        assert(!(polled matches Ok(Async::Ready(Some(_)))) ==> self.pending() =~= q);
        assert(self.timers() =~= ts);
        let result: Result<Async<Option<T>>, E> = match polled {
            Ok(Async::Ready(Some(Ok(v)))) => Ok(Async::Ready(v)),
            Ok(Async::Ready(Some(Err(e)))) => Err(e),
            Ok(Async::Ready(None)) => Ok(Async::NotReady),
            Err(_) => Ok(Async::NotReady),
            Ok(Async::NotReady) => Ok(Async::NotReady),
        };
        match result {
            Ok(Async::Ready(Some(_))) => {
                self.delay_future = self.buffer.pop();
                assert(self.pending() =~= q.drop_first());
                assert(self.timers() =~= ts.drop_first());
            }
            _ => {}
        }
        Ok(result)
    }
}

/// Builds a [`DelayState`] over a source that holds each event back for `duration`,
/// reading the time from `get_now`.
pub trait DelayStream: Sized {
    fn delay<F, T, E>(self, duration: Duration, get_now: F) -> (res: DelayState<Self, F, T, E>)
        where F: Fn() -> Instant
        requires
            call_requires(get_now, ()),
        ensures
            res.wf(),
            res.upstream() == self,
            res.clock() == get_now,
            res.duration() == duration,
            res.pending() == Seq::<Option<Entry<T, E>>>::empty(),
    {
        DelayState { stream: self, duration: duration, buffer: Vec::new(), delay_future: None, get_now: get_now }
    }
}

impl<S> DelayStream for S {}

/// A whole poll that did not fail is a [`delay_step`]: the first step either decided
/// (`Ok(Some(r))`), or answered `Ok(None)` and the second step, given any outcome of
/// the front timer, returned `Ok(r)`.
pub proof fn lemma_delay_poll_is_step<S, F: Fn() -> Instant, T, E>(
    s0: DelayState<S, F, T, E>,
    upstream: Result<Async<Option<T>>, E>,
    s1: DelayState<S, F, T, E>,
    first: Result<Option<Result<Async<Option<T>>, E>>, DelayFault>,
    fired: Result<Async<()>, tokio_timer::Error>,
    s2: DelayState<S, F, T, E>,
    second: Result<Result<Async<Option<T>>, E>, DelayFault>,
)
    requires
        s0.arrived(upstream, s1, first),
        first is Ok,
        first == Ok::<Option<Result<Async<Option<T>>, E>>, DelayFault>(None) ==> s1.timer_handled(fired, s2, second),
    ensures
        first matches Ok(Some(r)) ==> delay_step(s0.pending(), upstream, s1.pending(), r),
        first == Ok::<Option<Result<Async<Option<T>>, E>>, DelayFault>(None) ==> (second matches Ok(r)
            ==> delay_step(s0.pending(), upstream, s2.pending(), r)),
{
    if arrival(upstream) is Some {
        let now = choose|now: Instant| #[trigger] call_ensures(s0.clock(), (), now)
            && match instant_checked_add(now, s0.duration()) {
                None => {
                    &&& first == Err::<Option<Result<Async<Option<T>>, E>>, DelayFault>(DelayFault::DeadlineOverflow)
                    &&& s1.pending() == s0.pending()
                    &&& s1.timers() == s0.timers()
                },
                Some(deadline) => {
                    &&& first == Ok::<Option<Result<Async<Option<T>>, E>>, DelayFault>(None)
                    &&& s1.pending() == s0.pending().push(Some(arrival(upstream)->0))
                    &&& s1.timers().drop_last() == s0.timers()
                    &&& s1.timers().len() == s0.timers().len() + 1
                    &&& delay_deadline(s1.timers().last()) == deadline
                },
            };
    }
}

/// Every event is held back by the delay from its own arrival, whatever is already
/// pending: when a poll brings an event, the clock is read at some `now`; if `now`
/// plus the delay can be represented, the event joins the back of the queue with a
/// new timer whose deadline is exactly that instant, and nothing already pending
/// changes; otherwise the poll fails with `DeadlineOverflow` and nothing changes.
pub proof fn lemma_delay_each_event_gets_its_own_deadline<S, F: Fn() -> Instant, T, E>(
    s0: DelayState<S, F, T, E>,
    upstream: Result<Async<Option<T>>, E>,
    s1: DelayState<S, F, T, E>,
    res: Result<Option<Result<Async<Option<T>>, E>>, DelayFault>,
)
    requires
        s0.arrived(upstream, s1, res),
        arrival(upstream) is Some,
    ensures
        exists|now: Instant| #[trigger] call_ensures(s0.clock(), (), now) && match instant_checked_add(now, s0.duration()) {
            Some(deadline) => {
                &&& res == Ok::<Option<Result<Async<Option<T>>, E>>, DelayFault>(None)
                &&& s1.pending() == s0.pending().push(Some(arrival(upstream)->0))
                &&& s1.timers().len() == s0.timers().len() + 1
                &&& forall|i: int| 0 <= i < s0.timers().len() ==> s1.timers()[i] == s0.timers()[i]
                &&& delay_deadline(s1.timers()[s0.timers().len() as int]) == deadline
            },
            None => {
                &&& res == Err::<Option<Result<Async<Option<T>>, E>>, DelayFault>(DelayFault::DeadlineOverflow)
                &&& s1.pending() == s0.pending()
                &&& s1.timers() == s0.timers()
            },
        },
        s1.duration() == s0.duration(),
        s1.clock() == s0.clock(),
{
    let now = choose|now: Instant| #[trigger] call_ensures(s0.clock(), (), now)
        && match instant_checked_add(now, s0.duration()) {
            None => {
                &&& res == Err::<Option<Result<Async<Option<T>>, E>>, DelayFault>(DelayFault::DeadlineOverflow)
                &&& s1.pending() == s0.pending()
                &&& s1.timers() == s0.timers()
            },
            Some(deadline) => {
                &&& res == Ok::<Option<Result<Async<Option<T>>, E>>, DelayFault>(None)
                &&& s1.pending() == s0.pending().push(Some(arrival(upstream)->0))
                &&& s1.timers().drop_last() == s0.timers()
                &&& s1.timers().len() == s0.timers().len() + 1
                &&& delay_deadline(s1.timers().last()) == deadline
            },
        };
    if instant_checked_add(now, s0.duration()) is Some {
        assert forall|i: int| 0 <= i < s0.timers().len() implies s1.timers()[i] == s0.timers()[i] by {
            assert(s1.timers().drop_last()[i] == s1.timers()[i]);
        }
    }
}

/// A poll that brings no event reads no clock and changes nothing: it is "not ready"
/// when nothing is pending, and otherwise asks for the front timer to be polled.
pub proof fn lemma_delay_quiet_poll_changes_nothing<S, F: Fn() -> Instant, T, E>(
    s0: DelayState<S, F, T, E>,
    s1: DelayState<S, F, T, E>,
    res: Result<Option<Result<Async<Option<T>>, E>>, DelayFault>,
)
    requires
        s0.arrived(Ok::<Async<Option<T>>, E>(Async::NotReady), s1, res),
    ensures
        s1.pending() == s0.pending(),
        s1.timers() == s0.timers(),
        s0.pending().len() == 0 ==> res == Ok::<Option<Result<Async<Option<T>>, E>>, DelayFault>(Some(Ok(Async::NotReady))),
        s0.pending().len() > 0 ==> res == Ok::<Option<Result<Async<Option<T>>, E>>, DelayFault>(None),
{
}

/// The front entry is handed out only when its timer has fired, and then it is: given
/// the outcome of polling the front timer, a timer that has not fired (or that no
/// timer drives) hands nothing out and changes nothing; a fired timer hands out the
/// oldest pending event (an item leaves the queue with its timer; the end of the
/// stream or an error stays at the front, spent), and firing again on a spent front
/// entry is the `SpentEntry` fault.
pub proof fn lemma_delay_hands_out_front_only_when_fired<S, F: Fn() -> Instant, T, E>(
    s0: DelayState<S, F, T, E>,
    fired: Result<Async<()>, tokio_timer::Error>,
    s1: DelayState<S, F, T, E>,
    res: Result<Result<Async<Option<T>>, E>, DelayFault>,
)
    requires
        s0.timer_handled(fired, s1, res),
    ensures
        !(fired matches Ok(Async::Ready(_))) || s0.pending().len() == 0 ==> {
            &&& res == Ok::<Result<Async<Option<T>>, E>, DelayFault>(Ok(Async::NotReady))
            &&& s1.pending() == s0.pending()
            &&& s1.timers() == s0.timers()
        },
        fired matches Ok(Async::Ready(_)) && s0.pending().len() > 0 ==> match s0.pending()[0] {
            Some(Ok(Some(item))) => {
                &&& res == Ok::<Result<Async<Option<T>>, E>, DelayFault>(Ok(Async::Ready(Some(item))))
                &&& s1.pending() == s0.pending().subrange(1, s0.pending().len() as int)
                &&& s1.timers() == s0.timers().subrange(1, s0.timers().len() as int)
            },
            Some(Ok(None)) => {
                &&& res == Ok::<Result<Async<Option<T>>, E>, DelayFault>(Ok(Async::Ready(None)))
                &&& s1.pending()[0] is None
                &&& s1.pending().subrange(1, s1.pending().len() as int) == s0.pending().subrange(1, s0.pending().len() as int)
                &&& s1.timers() == s0.timers()
            },
            Some(Err(e)) => {
                &&& res == Ok::<Result<Async<Option<T>>, E>, DelayFault>(Err(e))
                &&& s1.pending()[0] is None
                &&& s1.pending().subrange(1, s1.pending().len() as int) == s0.pending().subrange(1, s0.pending().len() as int)
                &&& s1.timers() == s0.timers()
            },
            None => {
                &&& res == Err::<Result<Async<Option<T>>, E>, DelayFault>(DelayFault::SpentEntry)
                &&& s1.pending() == s0.pending()
                &&& s1.timers() == s0.timers()
            },
        },
{
    if fired matches Ok(Async::Ready(_)) && s0.pending().len() > 0 && s0.pending()[0] is Some {
        let q = s0.pending();
        assert(q.drop_first() =~= q.subrange(1, q.len() as int));
        assert(s0.timers().drop_first() =~= s0.timers().subrange(1, s0.timers().len() as int));
        if !(q[0] matches Some(Ok(Some(_)))) {
            let q2 = s1.pending();
            assert(q2 == q.update(0, None));
            assert(q2.subrange(1, q2.len() as int) =~= q.subrange(1, q.len() as int));
        }
    }
}

/// The events that a run of poll results brings, in order: one for each result that
/// is not "not ready".
pub open spec fn arrivals<T, E>(polls: Seq<Result<Async<Option<T>>, E>>) -> Seq<Option<Entry<T, E>>>
    decreases polls.len(),
{
    if polls.len() == 0 {
        Seq::empty()
    } else {
        let before = arrivals(polls.drop_last());
        match arrival(polls.last()) {
            None => before,
            Some(x) => before.push(Some(x)),
        }
    }
}

/// The pending entries that are still to be handed out: all but a spent front entry.
pub open spec fn live<T, E>(q: Seq<Option<Entry<T, E>>>) -> Seq<Option<Entry<T, E>>> {
    if q.len() > 0 && q[0] is None {
        q.drop_first()
    } else {
        q
    }
}

/// Delay neither loses, duplicates nor reorders events: over a run of whole polls of
/// a fresh `DelayState` (none of which failed), after each poll the events handed out
/// so far, followed by the entries still to be handed out, are exactly the events that
/// arrived so far, in arrival order. So what has been handed out is always a prefix of
/// what arrived: in particular the end of the stream comes out only after every item
/// that arrived before it.
pub proof fn lemma_delay_keeps_arrival_order<T, E>(
    ups: Seq<Result<Async<Option<T>>, E>>,
    qs: Seq<Seq<Option<Entry<T, E>>>>,
    outs: Seq<Result<Async<Option<T>>, E>>,
)
    requires
        qs.len() == ups.len() + 1,
        outs.len() == ups.len(),
        qs[0] == Seq::<Option<Entry<T, E>>>::empty(),
        forall|j: int| 0 <= j < ups.len() ==> #[trigger] delay_step(qs[j], ups[j], qs[j + 1], outs[j]),
    ensures
        forall|k: int| 0 <= k <= ups.len() ==> arrivals(outs.take(k)) + live(#[trigger] qs[k]) == arrivals(ups.take(k)),
        forall|k: int| 0 <= k <= ups.len() ==> #[trigger] arrivals(outs.take(k)).is_prefix_of(arrivals(ups.take(k))),
{
    assert forall|k: int| 0 <= k <= ups.len() implies arrivals(outs.take(k)) + live(#[trigger] qs[k]) == arrivals(ups.take(k)) by {
        lemma_delay_order_upto(ups, qs, outs, k);
    }
    assert forall|k: int| 0 <= k <= ups.len() implies #[trigger] arrivals(outs.take(k)).is_prefix_of(arrivals(ups.take(k))) by {
        lemma_delay_order_upto(ups, qs, outs, k);
        let a = arrivals(outs.take(k));
        let c = arrivals(ups.take(k));
        assert(a + live(qs[k]) == c);
        assert(a =~= c.subrange(0, a.len() as int));
    }
}

proof fn lemma_delay_order_upto<T, E>(
    ups: Seq<Result<Async<Option<T>>, E>>,
    qs: Seq<Seq<Option<Entry<T, E>>>>,
    outs: Seq<Result<Async<Option<T>>, E>>,
    k: int,
)
    requires
        qs.len() == ups.len() + 1,
        outs.len() == ups.len(),
        qs[0] == Seq::<Option<Entry<T, E>>>::empty(),
        forall|j: int| 0 <= j < ups.len() ==> #[trigger] delay_step(qs[j], ups[j], qs[j + 1], outs[j]),
        0 <= k <= ups.len(),
    ensures
        arrivals(outs.take(k)) + live(qs[k]) == arrivals(ups.take(k)),
        forall|i: int| 1 <= i < qs[k].len() ==> qs[k][i] is Some,
    decreases k,
{
    if k == 0 {
        assert(outs.take(0) =~= Seq::<Result<Async<Option<T>>, E>>::empty());
        assert(ups.take(0) =~= Seq::<Result<Async<Option<T>>, E>>::empty());
        assert(arrivals(outs.take(0)) + live(qs[0]) =~= arrivals(ups.take(0)));
    } else {
        let j = k - 1;
        lemma_delay_order_upto(ups, qs, outs, j);
        assert(delay_step(qs[j], ups[j], qs[j + 1], outs[j]));
        assert(ups.take(k).drop_last() =~= ups.take(j));
        assert(outs.take(k).drop_last() =~= outs.take(j));
        assert(ups.take(k).last() == ups[j]);
        assert(outs.take(k).last() == outs[j]);
        let q0 = qs[j];
        let q = with_arrival(q0, ups[j]);
        let before_out = arrivals(outs.take(j));
        let before_up = arrivals(ups.take(j));
        // the arrival joins the back of what is still to be handed out
        assert(live(q) =~= match arrival(ups[j]) {
            None => live(q0),
            Some(x) => live(q0).push(Some(x)),
        });
        assert(forall|i: int| 1 <= i < q.len() ==> q[i] is Some);
        if outs[j] == Ok::<Async<Option<T>>, E>(Async::NotReady) && qs[k] == q {
            assert(arrivals(outs.take(k)) == before_out);
            assert(arrivals(outs.take(k)) + live(qs[k]) =~= arrivals(ups.take(k)));
        } else {
            assert(handed_out(q, qs[k], outs[j]));
            assert(q[0] is Some);
            assert(live(q) == q);
            assert(live(qs[k]) =~= q.drop_first());
            assert(arrival(outs[j]) == q[0]);
            assert(arrivals(outs.take(k)) == before_out.push(q[0]));
            assert(before_out.push(q[0]) + q.drop_first() =~= before_out + q);
            assert(arrivals(outs.take(k)) + live(qs[k]) =~= arrivals(ups.take(k)));
        }
    }
}

} // verus!
