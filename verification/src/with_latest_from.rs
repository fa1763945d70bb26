use vstd::prelude::*;
use crate::poll::{Async, absorb, absorbed, brings_item};

verus! {

/// A combinator over two sources that pairs each item of the first source with the
/// latest item of the second. An item of the first source waits until the second has
/// produced something; a newer item of the first source replaces a waiting one.
///
/// One poll of the combinator is two steps: [`WithLatestFromState::poll_first`] with
/// the result of polling the first source, then, unless that returned an error,
/// [`WithLatestFromState::poll_second`] with the result of polling the second.
pub struct WithLatestFromState<S1, S2, T1, T2> {
    /// The first upstream source; polling it is up to the owner of this state.
    pub stream1: S1,
    /// The second upstream source; polling it is up to the owner of this state.
    pub stream2: S2,
    queued1: Option<T1>,
    queued2: Option<T2>,
    done1: bool,
    done2: bool,
}

impl<S1, S2, T1, T2> WithLatestFromState<S1, S2, T1, T2> {
    /// The first upstream source.
    pub closed spec fn upstream1(&self) -> S1 {
        self.stream1
    }

    /// The second upstream source.
    pub closed spec fn upstream2(&self) -> S2 {
        self.stream2
    }

    /// The item of the first source waiting to be paired.
    pub closed spec fn queued1(&self) -> Option<T1> {
        self.queued1
    }

    /// The latest item of the second source.
    pub closed spec fn queued2(&self) -> Option<T2> {
        self.queued2
    }

    /// Whether the first source has ended.
    pub closed spec fn done1(&self) -> bool {
        self.done1
    }

    /// Whether the second source has ended.
    pub closed spec fn done2(&self) -> bool {
        self.done2
    }

    /// What the first step of a poll does, from `self` to `next`: the result of polling
    /// the first source is recorded (an error is handed back as `res`), and nothing
    /// else changes.
    pub open spec fn first_polled<E>(self, upstream1: Result<Async<Option<T1>>, E>, next: Self, res: Result<(), E>) -> bool {
        &&& next.upstream1() == self.upstream1()
        &&& next.upstream2() == self.upstream2()
        &&& next.queued2() == self.queued2()
        &&& next.done2() == self.done2()
        &&& exists|got: Result<bool, E>| #[trigger] absorbed(upstream1, self.queued1(), self.done1(),
                next.queued1(), next.done1(), got)
                && (got is Ok <==> res is Ok)
                && (got matches Err(e) ==> res == Err::<(), E>(e))
    }

    /// What the second step of a poll does, from `self` to `next`, returning `res`: the
    /// result of polling the second source is recorded; an error is returned as it
    /// is. Otherwise, when an item of the first source is waiting and the second
    /// source has produced something, the waiting item is handed out, paired with a
    /// clone of the latest item of the second source; else, when both sources have
    /// ended, the end of the stream; else "not ready".
    pub open spec fn second_polled<E>(self, upstream2: Result<Async<Option<T2>>, E>, next: Self, res: Result<Async<Option<(T1, T2)>>, E>) -> bool
        where T2: Clone
    {
        &&& next.upstream1() == self.upstream1()
        &&& next.upstream2() == self.upstream2()
        &&& next.done1() == self.done1()
        &&& exists|got: Result<bool, E>| #[trigger] absorbed(upstream2, self.queued2(), self.done2(),
                next.queued2(), next.done2(), got)
                && match got {
                    Err(e) => res == Err::<Async<Option<(T1, T2)>>, E>(e) && next.queued1() == self.queued1(),
                    Ok(_) => if self.queued1() is Some && next.queued2() is Some {
                        &&& res matches Ok(Async::Ready(Some(pair)))
                        &&& pair.0 == self.queued1()->0
                        &&& cloned(next.queued2()->0, pair.1)
                        &&& next.queued1() is None
                    } else {
                        &&& next.queued1() == self.queued1()
                        &&& res == if next.done1() && next.done2() {
                            Ok::<Async<Option<(T1, T2)>>, E>(Async::Ready(None))
                        } else {
                            Ok::<Async<Option<(T1, T2)>>, E>(Async::NotReady)
                        }
                    },
                }
    }

    /// First step of a poll: records the result of polling the first source. An
    /// error is handed back (the poll returns it, and the second source is not
    /// polled).
    pub fn poll_first<E>(&mut self, upstream1: Result<Async<Option<T1>>, E>) -> (res: Result<(), E>)
        ensures
            old(self).first_polled(upstream1, *final(self), res),
    {
        let got = absorb(upstream1, &mut self.queued1, &mut self.done1);
        let ghost g = got;
        let res = match got {
            Ok(_) => Ok(()),
            Err(e) => Err(e),
        };
        assert(absorbed(upstream1, old(self).queued1(), old(self).done1(), self.queued1(), self.done1(), g));
        res
    }

    /// Second step of a poll: records the result of polling the second source and
    /// decides what the poll returns. An error is returned as it is. Otherwise, when
    /// an item of the first source is waiting and the second source has produced
    /// something, the waiting item is paired with a clone of the latest item of the
    /// second source; else, when both sources have ended, the end of the stream;
    /// else "not ready".
    pub fn poll_second<E>(&mut self, upstream2: Result<Async<Option<T2>>, E>) -> (res: Result<Async<Option<(T1, T2)>>, E>)
        where T2: Clone
        ensures
            old(self).second_polled(upstream2, *final(self), res),
    {
        let got = absorb(upstream2, &mut self.queued2, &mut self.done2);
        let ghost g = got;
        let res = match got {
            Err(e) => Err(e),
            Ok(_) => {
                if self.queued1.is_some() && self.queued2.is_some() {
                    let first = self.queued1.take().unwrap();
                    match &self.queued2 {
                        Some(latest) => Ok(Async::Ready(Some((first, latest.clone())))),
                        None => Ok(Async::NotReady),
                    }
                } else if self.done1 && self.done2 {
                    Ok(Async::Ready(None))
                } else {
                    Ok(Async::NotReady)
                }
            }
        };
        assert(absorbed(upstream2, old(self).queued2(), old(self).done2(), self.queued2(), self.done2(), g));
        res
    }
}

/// Builds a [`WithLatestFromState`] over two sources (which the caller fuses, so that
/// an ended source is not polled again).
pub trait WithLatestFrom: Sized {
    fn with_latest_from<S2, T1, T2>(self, stream2: S2) -> (res: WithLatestFromState<Self, S2, T1, T2>)
        ensures
            res.upstream1() == self,
            res.upstream2() == stream2,
            res.queued1() is None,
            res.queued2() is None,
            !res.done1(),
            !res.done2(),
    {
        WithLatestFromState { stream1: self, stream2: stream2, queued1: None, queued2: None, done1: false, done2: false }
    }
}

impl<S> WithLatestFrom for S {}

/// Once the second source has produced something (before this poll, or in it), each
/// item of the first source comes out in the same poll that brings it, paired with a
/// clone of the latest item of the second source (counting one that this very poll
/// brings).
pub proof fn lemma_with_latest_from_pairs_at_once<S1, S2, T1, T2: Clone, E>(
    s0: WithLatestFromState<S1, S2, T1, T2>,
    x: T1,
    s1: WithLatestFromState<S1, S2, T1, T2>,
    upstream2: Result<Async<Option<T2>>, E>,
    s2: WithLatestFromState<S1, S2, T1, T2>,
    res: Result<Async<Option<(T1, T2)>>, E>,
)
    requires
        s0.queued2() is Some || brings_item(upstream2),
        s0.first_polled(Ok::<Async<Option<T1>>, E>(Async::Ready(Some(x))), s1, Ok::<(), E>(())),
        s1.second_polled(upstream2, s2, res),
        upstream2 is Ok,
    ensures
        res matches Ok(Async::Ready(Some(pair))) && pair.0 == x && cloned(s2.queued2()->0, pair.1),
        s2.queued1() is None,
{
    assert(s1.queued1() == Some(x));
    assert(s2.queued2() is Some);
}

/// The item a poll result brings, if any.
pub open spec fn item_of<T, E>(upstream: Result<Async<Option<T>>, E>) -> Option<T> {
    match upstream {
        Ok(Async::Ready(Some(x))) => Some(x),
        _ => None,
    }
}

/// The first step keeps the latest item of each side: the waiting item of the first
/// source becomes the new item when the poll brings one and is otherwise kept, even
/// when the first source has ended; the latest item of the second source and its end
/// flag are untouched; the step fails exactly on an error, which it hands back.
pub proof fn lemma_with_latest_from_first_step_keeps_items<S1, S2, T1, T2, E>(
    s0: WithLatestFromState<S1, S2, T1, T2>,
    upstream1: Result<Async<Option<T1>>, E>,
    s1: WithLatestFromState<S1, S2, T1, T2>,
    res: Result<(), E>,
)
    requires
        s0.first_polled(upstream1, s1, res),
    ensures
        s1.queued1() == match item_of(upstream1) {
            Some(x) => Some(x),
            None => s0.queued1(),
        },
        s1.queued2() == s0.queued2(),
        s1.done1() == (s0.done1() || upstream1 == Ok::<Async<Option<T1>>, E>(Async::Ready(None))),
        s1.done2() == s0.done2(),
        match upstream1 {
            Err(e) => res == Err::<(), E>(e),
            Ok(_) => res is Ok,
        },
{
}

/// The second step never forgets the latest item of the second source: it becomes
/// the new item when the poll brings one and is otherwise kept, even once the second
/// source has ended; the first source's end flag is untouched.
pub proof fn lemma_with_latest_from_second_step_keeps_latest<S1, S2, T1, T2: Clone, E>(
    s0: WithLatestFromState<S1, S2, T1, T2>,
    upstream2: Result<Async<Option<T2>>, E>,
    s1: WithLatestFromState<S1, S2, T1, T2>,
    res: Result<Async<Option<(T1, T2)>>, E>,
)
    requires
        s0.second_polled(upstream2, s1, res),
    ensures
        s1.queued2() == match item_of(upstream2) {
            Some(y) => Some(y),
            None => s0.queued2(),
        },
        s1.done1() == s0.done1(),
        s1.done2() == (s0.done2() || upstream2 == Ok::<Async<Option<T2>>, E>(Async::Ready(None))),
        upstream2 matches Err(e) ==> res == Err::<Async<Option<(T1, T2)>>, E>(e) && s1.queued1() == s0.queued1(),
{
}

/// The end of the first source does not drop the item waiting to be paired: if `x`
/// waits and a poll brings the first source's end and then an item `y` of the second,
/// that poll yields `x` paired with a clone of `y`.
pub proof fn lemma_with_latest_from_waiting_item_survives_end<S1, S2, T1, T2: Clone, E>(
    s0: WithLatestFromState<S1, S2, T1, T2>,
    x: T1,
    s1: WithLatestFromState<S1, S2, T1, T2>,
    y: T2,
    s2: WithLatestFromState<S1, S2, T1, T2>,
    res: Result<Async<Option<(T1, T2)>>, E>,
)
    requires
        s0.queued1() == Some(x),
        s0.first_polled(Ok::<Async<Option<T1>>, E>(Async::Ready(None)), s1, Ok::<(), E>(())),
        s1.second_polled(Ok::<Async<Option<T2>>, E>(Async::Ready(Some(y))), s2, res),
    ensures
        res matches Ok(Async::Ready(Some(pair))) && pair.0 == x && cloned(y, pair.1),
{
    lemma_with_latest_from_first_step_keeps_items(s0, Ok::<Async<Option<T1>>, E>(Async::Ready(None)), s1, Ok::<(), E>(()));
    lemma_with_latest_from_second_step_keeps_latest(s1, Ok::<Async<Option<T2>>, E>(Async::Ready(Some(y))), s2, res);
    lemma_with_latest_from_pairs_at_once_given_waiting(s1, Ok::<Async<Option<T2>>, E>(Async::Ready(Some(y))), s2, res);
}

/// Whenever an item waits after the first step and the second source has an item
/// after the second, the second step yields the waiting item paired with a clone of
/// that latest item, and nothing waits any more.
pub proof fn lemma_with_latest_from_pairs_at_once_given_waiting<S1, S2, T1, T2: Clone, E>(
    s1: WithLatestFromState<S1, S2, T1, T2>,
    upstream2: Result<Async<Option<T2>>, E>,
    s2: WithLatestFromState<S1, S2, T1, T2>,
    res: Result<Async<Option<(T1, T2)>>, E>,
)
    requires
        s1.second_polled(upstream2, s2, res),
        upstream2 is Ok,
        s1.queued1() is Some,
        s1.queued2() is Some || item_of(upstream2) is Some,
    ensures
        res matches Ok(Async::Ready(Some(pair))) && pair.0 == s1.queued1()->0 && cloned(s2.queued2()->0, pair.1),
        s2.queued2() == match item_of(upstream2) {
            Some(y) => Some(y),
            None => s1.queued2(),
        },
        s2.queued1() is None,
{
    lemma_with_latest_from_second_step_keeps_latest(s1, upstream2, s2, res);
}

/// When the second step has nothing to pair (no item waits, or the second source has
/// never produced one), the waiting item is kept and the poll ends the stream exactly
/// when both sources have ended; otherwise it is "not ready".
pub proof fn lemma_with_latest_from_ends_only_when_both_ended<S1, S2, T1, T2: Clone, E>(
    s1: WithLatestFromState<S1, S2, T1, T2>,
    upstream2: Result<Async<Option<T2>>, E>,
    s2: WithLatestFromState<S1, S2, T1, T2>,
    res: Result<Async<Option<(T1, T2)>>, E>,
)
    requires
        s1.second_polled(upstream2, s2, res),
        upstream2 is Ok,
        s1.queued1() is None || (s1.queued2() is None && item_of(upstream2) is None),
    ensures
        s2.queued1() == s1.queued1(),
        res == if s1.done1() && (s1.done2() || upstream2 == Ok::<Async<Option<T2>>, E>(Async::Ready(None))) {
            Ok::<Async<Option<(T1, T2)>>, E>(Async::Ready(None))
        } else {
            Ok::<Async<Option<(T1, T2)>>, E>(Async::NotReady)
        },
{
    lemma_with_latest_from_second_step_keeps_latest(s1, upstream2, s2, res);
}

/// The items that a run of poll results of one source brings, in order.
pub open spec fn items_of<T, E>(polls: Seq<Result<Async<Option<T>>, E>>) -> Seq<T>
    decreases polls.len(),
{
    if polls.len() == 0 {
        Seq::empty()
    } else {
        let before = items_of(polls.drop_last());
        match polls.last() {
            Ok(Async::Ready(Some(x))) => before.push(x),
            _ => before,
        }
    }
}

/// The first components of the pairs that a run of polls yields, in order.
pub open spec fn paired_firsts<T1, T2, E>(outs: Seq<Result<Async<Option<(T1, T2)>>, E>>) -> Seq<T1>
    decreases outs.len(),
{
    if outs.len() == 0 {
        Seq::empty()
    } else {
        let before = paired_firsts(outs.drop_last());
        match outs.last() {
            Ok(Async::Ready(Some(pair))) => before.push(pair.0),
            _ => before,
        }
    }
}

impl<S1, S2, T1, T2: Clone> WithLatestFromState<S1, S2, T1, T2> {
    /// A whole poll, from `self` to `next`, returning `out`: the first step (to `mid`,
    /// answering `first`), then, unless that handed back an error (which the poll
    /// returns), the second step.
    pub open spec fn whole_polled<E>(
        self,
        upstream1: Result<Async<Option<T1>>, E>,
        mid: Self,
        first: Result<(), E>,
        upstream2: Result<Async<Option<T2>>, E>,
        next: Self,
        out: Result<Async<Option<(T1, T2)>>, E>,
    ) -> bool {
        &&& self.first_polled(upstream1, mid, first)
        &&& match first {
            Err(e) => next == mid && out == Err::<Async<Option<(T1, T2)>>, E>(e),
            Ok(()) => mid.second_polled(upstream2, next, out),
        }
    }
}

/// The premises of a run of whole polls of a fresh `WithLatestFromState`.
pub open spec fn with_latest_from_run<S1, S2, T1, T2: Clone, E>(
    ss: Seq<WithLatestFromState<S1, S2, T1, T2>>,
    mids: Seq<WithLatestFromState<S1, S2, T1, T2>>,
    firsts: Seq<Result<(), E>>,
    ups1: Seq<Result<Async<Option<T1>>, E>>,
    ups2: Seq<Result<Async<Option<T2>>, E>>,
    outs: Seq<Result<Async<Option<(T1, T2)>>, E>>,
) -> bool {
    &&& ss.len() == outs.len() + 1
    &&& mids.len() == outs.len()
    &&& firsts.len() == outs.len()
    &&& ups1.len() == outs.len()
    &&& ups2.len() == outs.len()
    &&& ss[0].queued1() is None
    &&& forall|j: int| 0 <= j < outs.len() ==> #[trigger] ss[j].whole_polled(ups1[j], mids[j], firsts[j], ups2[j], ss[j + 1], outs[j])
}

/// Only items of the first source are paired, each at most once and in order: over
/// any run of polls of a fresh `WithLatestFromState`, the first components of the
/// pairs it yields are a subsequence of the items the first source brought; `idx`
/// gives, for each pair, the position of its first component among those items.
pub proof fn lemma_with_latest_from_firsts_are_subsequence<S1, S2, T1, T2: Clone, E>(
    ss: Seq<WithLatestFromState<S1, S2, T1, T2>>,
    mids: Seq<WithLatestFromState<S1, S2, T1, T2>>,
    firsts: Seq<Result<(), E>>,
    ups1: Seq<Result<Async<Option<T1>>, E>>,
    ups2: Seq<Result<Async<Option<T2>>, E>>,
    outs: Seq<Result<Async<Option<(T1, T2)>>, E>>,
) -> (idx: Seq<int>)
    requires
        with_latest_from_run(ss, mids, firsts, ups1, ups2, outs),
    ensures
        idx.len() == paired_firsts(outs).len(),
        forall|i: int| 0 <= i < idx.len() ==> 0 <= #[trigger] idx[i] < items_of(ups1).len(),
        forall|i: int, j: int| 0 <= i < j < idx.len() ==> #[trigger] idx[i] < #[trigger] idx[j],
        forall|i: int| 0 <= i < idx.len() ==> items_of(ups1)[#[trigger] idx[i]] == paired_firsts(outs)[i],
{
    let idx = lemma_with_latest_from_upto(ss, mids, firsts, ups1, ups2, outs, outs.len() as int);
    assert(outs.take(outs.len() as int) =~= outs);
    assert(ups1.take(outs.len() as int) =~= ups1);
    idx
}

proof fn lemma_with_latest_from_upto<S1, S2, T1, T2: Clone, E>(
    ss: Seq<WithLatestFromState<S1, S2, T1, T2>>,
    mids: Seq<WithLatestFromState<S1, S2, T1, T2>>,
    firsts: Seq<Result<(), E>>,
    ups1: Seq<Result<Async<Option<T1>>, E>>,
    ups2: Seq<Result<Async<Option<T2>>, E>>,
    outs: Seq<Result<Async<Option<(T1, T2)>>, E>>,
    k: int,
) -> (idx: Seq<int>)
    requires
        with_latest_from_run(ss, mids, firsts, ups1, ups2, outs),
        0 <= k <= outs.len(),
    ensures
        idx.len() == paired_firsts(outs.take(k)).len(),
        forall|i: int| 0 <= i < idx.len() ==> 0 <= #[trigger] idx[i] < items_of(ups1.take(k)).len(),
        forall|i: int, j: int| 0 <= i < j < idx.len() ==> #[trigger] idx[i] < #[trigger] idx[j],
        forall|i: int| 0 <= i < idx.len() ==> items_of(ups1.take(k))[#[trigger] idx[i]] == paired_firsts(outs.take(k))[i],
        ss[k].queued1() matches Some(x) ==> {
            let items = items_of(ups1.take(k));
            &&& items.len() > 0
            &&& x == items.last()
            &&& (idx.len() > 0 ==> idx.last() < items.len() - 1)
        },
    decreases k,
{
    if k == 0 {
        assert(outs.take(0).len() == 0);
        assert(ups1.take(0).len() == 0);
        Seq::empty()
    } else {
        let j = k - 1;
        let prev = lemma_with_latest_from_upto(ss, mids, firsts, ups1, ups2, outs, j);
        assert(ss[j].whole_polled(ups1[j], mids[j], firsts[j], ups2[j], ss[j + 1], outs[j]));
        assert(ups1.take(k).drop_last() =~= ups1.take(j));
        assert(outs.take(k).drop_last() =~= outs.take(j));
        assert(ups1.take(k).last() == ups1[j]);
        assert(outs.take(k).last() == outs[j]);
        let items0 = items_of(ups1.take(j));
        let items = items_of(ups1.take(k));
        let s0 = ss[j];
        let mid = mids[j];
        // after the first step, a waiting item is the latest item of the first source,
        // and comes after every item already paired
        assert(mid.queued1() matches Some(x) ==> {
            &&& items.len() > 0
            &&& x == items.last()
            &&& (prev.len() > 0 ==> prev.last() < items.len() - 1)
        });
        assert(forall|i: int| 0 <= i < items0.len() ==> items[i] == items0[i]);
        if outs[j] matches Ok(Async::Ready(Some(_))) {
            let pair = outs[j]->Ok_0->Ready_0->Some_0;
            assert(firsts[j] is Ok);
            assert(mid.queued1() is Some);
            let idx = prev.push(items.len() - 1);
            assert(paired_firsts(outs.take(k)) == paired_firsts(outs.take(j)).push(pair.0));
            assert forall|i: int| 0 <= i < idx.len() implies items[#[trigger] idx[i]] == paired_firsts(outs.take(k))[i] by {
                if i < prev.len() {
                    assert(idx[i] == prev[i]);
                }
            }
            assert forall|a: int, b: int| 0 <= a < b < idx.len() implies #[trigger] idx[a] < #[trigger] idx[b] by {
                if b < prev.len() {
                    assert(idx[a] == prev[a] && idx[b] == prev[b]);
                } else {
                    assert(idx[a] == prev[a]);
                    assert(prev[a] <= prev.last());
                }
            }
            idx
        } else {
            assert(paired_firsts(outs.take(k)) == paired_firsts(outs.take(j)));
            assert(ss[k].queued1() == mid.queued1());
            assert forall|i: int| 0 <= i < prev.len() implies items[#[trigger] prev[i]] == paired_firsts(outs.take(k))[i] by {
                assert(items[prev[i]] == items0[prev[i]]);
            }
            prev
        }
    }
}

} // verus!
