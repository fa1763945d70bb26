use vstd::prelude::*;
use crate::poll::{Async, absorb, absorbed, brings_item};
use crate::with_latest_from::{item_of, items_of};

verus! {

/// A combinator over two sources that, whenever either source produces an item and
/// both have produced something, yields the pair of their latest items. Errors are
/// not combined: a poll returns at most one error.
///
/// One poll of the combinator is two steps: [`CombineState::poll_first`] with the
/// result of polling the first source, then, unless that returned an error,
/// [`CombineState::poll_second`] with the result of polling the second.
pub struct CombineState<S1, S2, T1, T2> {
    /// The first upstream source; polling it is up to the owner of this state.
    pub stream1: S1,
    /// The second upstream source; polling it is up to the owner of this state.
    pub stream2: S2,
    queued1: Option<T1>,
    queued2: Option<T2>,
    done1: bool,
    done2: bool,
    fresh: bool,
}

impl<S1, S2, T1, T2> CombineState<S1, S2, T1, T2> {
    /// The first upstream source.
    pub closed spec fn upstream1(&self) -> S1 {
        self.stream1
    }

    /// The second upstream source.
    pub closed spec fn upstream2(&self) -> S2 {
        self.stream2
    }

    /// The latest item of the first source.
    pub closed spec fn queued1(&self) -> Option<T1> {
        self.queued1
    }

    /// The latest item of the second source.
    pub closed spec fn queued2(&self) -> Option<T2> {
        self.queued2
    }

    /// Whether the first source has ended.
    pub closed spec fn done1(&self) -> bool {
        self.done1
    }

    /// Whether the second source has ended.
    pub closed spec fn done2(&self) -> bool {
        self.done2
    }

    /// Whether the poll under way has received a new item so far.
    pub closed spec fn fresh(&self) -> bool {
        self.fresh
    }

    /// What the first step of a poll does, from `self` to `next`: the result of polling
    /// the first source is recorded (an error is handed back as `res`), and the poll
    /// counts as fresh exactly when that result is a new item.
    pub open spec fn first_polled<E>(self, upstream1: Result<Async<Option<T1>>, E>, next: Self, res: Result<(), E>) -> bool {
        &&& next.upstream1() == self.upstream1()
        &&& next.upstream2() == self.upstream2()
        &&& next.queued2() == self.queued2()
        &&& next.done2() == self.done2()
        &&& exists|got: Result<bool, E>| #[trigger] absorbed(upstream1, self.queued1(), self.done1(),
                next.queued1(), next.done1(), got)
                && (next.fresh() <==> got == Ok::<bool, E>(true))
                && (got is Ok <==> res is Ok)
                && (got matches Err(e) ==> res == Err::<(), E>(e))
    }

    /// What the second step of a poll does, from `self` to `next`, returning `res`: the
    /// result of polling the second source is recorded (a new item makes the poll
    /// fresh); an error is returned as it is. Otherwise, when both sources have ended,
    /// the end of the stream; else, when the poll is fresh and both sources have
    /// produced something, a pair of clones of their latest items; else "not ready".
    pub open spec fn second_polled<E>(self, upstream2: Result<Async<Option<T2>>, E>, next: Self, res: Result<Async<Option<(T1, T2)>>, E>) -> bool
        where T1: Clone, T2: Clone
    {
        &&& next.upstream1() == self.upstream1()
        &&& next.upstream2() == self.upstream2()
        &&& next.queued1() == self.queued1()
        &&& next.done1() == self.done1()
        &&& exists|got: Result<bool, E>| #[trigger] absorbed(upstream2, self.queued2(), self.done2(),
                next.queued2(), next.done2(), got)
                && (next.fresh() <==> self.fresh() || got == Ok::<bool, E>(true))
                && match got {
                    Err(e) => res == Err::<Async<Option<(T1, T2)>>, E>(e),
                    Ok(_) => if next.done1() && next.done2() {
                        res == Ok::<Async<Option<(T1, T2)>>, E>(Async::Ready(None))
                    } else if next.fresh() && next.queued1() is Some && next.queued2() is Some {
                        &&& res matches Ok(Async::Ready(Some(pair)))
                        &&& cloned(next.queued1()->0, pair.0)
                        &&& cloned(next.queued2()->0, pair.1)
                    } else {
                        res == Ok::<Async<Option<(T1, T2)>>, E>(Async::NotReady)
                    },
                }
    }

    /// First step of a poll: records the result of polling the first source. An
    /// error is handed back (the poll returns it, and the second source is not
    /// polled).
    pub fn poll_first<E>(&mut self, upstream1: Result<Async<Option<T1>>, E>) -> (res: Result<(), E>)
        ensures
            old(self).first_polled(upstream1, *final(self), res),
    {
        let got = absorb(upstream1, &mut self.queued1, &mut self.done1);
        let ghost g = got;
        let res = match got {
            Ok(new_item) => {
                self.fresh = new_item;
                Ok(())
            }
            Err(e) => {
                self.fresh = false;
                Err(e)
            }
        };
        assert(absorbed(upstream1, old(self).queued1(), old(self).done1(), self.queued1(), self.done1(), g));
        res
    }

    /// Second step of a poll: records the result of polling the second source and
    /// decides what the poll returns. An error is returned as it is. Otherwise, when
    /// both sources have ended, the end of the stream; else, when this poll brought a
    /// new item from either source and both sources have produced something, a pair
    /// of clones of their latest items; else "not ready".
    pub fn poll_second<E>(&mut self, upstream2: Result<Async<Option<T2>>, E>) -> (res: Result<Async<Option<(T1, T2)>>, E>)
        where T1: Clone, T2: Clone
        ensures
            old(self).second_polled(upstream2, *final(self), res),
    {
        let got = absorb(upstream2, &mut self.queued2, &mut self.done2);
        let ghost g = got;
        let res = match got {
            Err(e) => Err(e),
            Ok(new_item) => {
                if new_item {
                    self.fresh = true;
                }
                if self.done1 && self.done2 {
                    Ok(Async::Ready(None))
                } else if self.fresh {
                    match (&self.queued1, &self.queued2) {
                        (Some(latest1), Some(latest2)) => Ok(Async::Ready(Some((latest1.clone(), latest2.clone())))),
                        _ => Ok(Async::NotReady),
                    }
                } else {
                    Ok(Async::NotReady)
                }
            }
        };
        assert(absorbed(upstream2, old(self).queued2(), old(self).done2(), self.queued2(), self.done2(), g));
        res
    }
}

/// Builds a [`CombineState`] over two sources (which the caller fuses, so that an
/// ended source is not polled again).
pub trait CombineLatest: Sized {
    fn combine_latest<S2, T1, T2>(self, stream2: S2) -> (res: CombineState<Self, S2, T1, T2>)
        ensures
            res.upstream1() == self,
            res.upstream2() == stream2,
            res.queued1() is None,
            res.queued2() is None,
            !res.done1(),
            !res.done2(),
            !res.fresh(),
    {
        CombineState {
            stream1: self,
            stream2: stream2,
            queued1: None,
            queued2: None,
            done1: false,
            done2: false,
            fresh: false,
        }
    }
}

impl<S> CombineLatest for S {}

/// The first step keeps the latest item of each source: the first source's becomes
/// the new item when the poll brings one and is otherwise kept, even once that source
/// has ended; the second source's is untouched; the step fails exactly on an error.
pub proof fn lemma_combine_latest_first_step_keeps_items<S1, S2, T1, T2, E>(
    s0: CombineState<S1, S2, T1, T2>,
    upstream1: Result<Async<Option<T1>>, E>,
    s1: CombineState<S1, S2, T1, T2>,
    res: Result<(), E>,
)
    requires
        s0.first_polled(upstream1, s1, res),
    ensures
        s1.queued1() == match item_of(upstream1) {
            Some(x) => Some(x),
            None => s0.queued1(),
        },
        s1.queued2() == s0.queued2(),
        s1.done1() == (s0.done1() || upstream1 == Ok::<Async<Option<T1>>, E>(Async::Ready(None))),
        s1.done2() == s0.done2(),
        s1.fresh() == item_of(upstream1) is Some,
        match upstream1 {
            Err(e) => res == Err::<(), E>(e),
            Ok(_) => res is Ok,
        },
{
}

/// The second step never forgets a latest item: the first source's is untouched, the
/// second source's becomes the new item when the poll brings one and is otherwise
/// kept, even once a source has ended.
pub proof fn lemma_combine_latest_second_step_keeps_items<S1, S2, T1: Clone, T2: Clone, E>(
    s0: CombineState<S1, S2, T1, T2>,
    upstream2: Result<Async<Option<T2>>, E>,
    s1: CombineState<S1, S2, T1, T2>,
    res: Result<Async<Option<(T1, T2)>>, E>,
)
    requires
        s0.second_polled(upstream2, s1, res),
    ensures
        s1.queued1() == s0.queued1(),
        s1.queued2() == match item_of(upstream2) {
            Some(y) => Some(y),
            None => s0.queued2(),
        },
        s1.done1() == s0.done1(),
        s1.done2() == (s0.done2() || upstream2 == Ok::<Async<Option<T2>>, E>(Async::Ready(None))),
        s1.fresh() == (s0.fresh() || item_of(upstream2) is Some),
        upstream2 matches Err(e) ==> res == Err::<Async<Option<(T1, T2)>>, E>(e),
{
}

/// The latest item kept for each source is the last item that source brought,
/// whether or not it has ended: over a run of error-free polls of a fresh state, after
/// `k` polls each source's latest item is the last of the items it brought in those
/// polls (none if it brought none).
pub proof fn lemma_combine_latest_keeps_last_items<S1, S2, T1: Clone, T2: Clone, E>(
    ss: Seq<CombineState<S1, S2, T1, T2>>,
    mids: Seq<CombineState<S1, S2, T1, T2>>,
    ups1: Seq<Result<Async<Option<T1>>, E>>,
    ups2: Seq<Result<Async<Option<T2>>, E>>,
    outs: Seq<Result<Async<Option<(T1, T2)>>, E>>,
)
    requires
        ss.len() == ups1.len() + 1,
        mids.len() == ups1.len(),
        ups2.len() == ups1.len(),
        outs.len() == ups1.len(),
        ss[0].queued1() is None,
        ss[0].queued2() is None,
        forall|j: int| 0 <= j < ups1.len() ==> #[trigger] ss[j].polled_without_error(ups1[j], mids[j], ups2[j], ss[j + 1], outs[j]),
    ensures
        forall|k: int| 0 <= k <= ups1.len() ==> #[trigger] ss[k].queued1() == if items_of(ups1.take(k)).len() == 0 {
            None
        } else {
            Some(items_of(ups1.take(k)).last())
        },
        forall|k: int| 0 <= k <= ups1.len() ==> #[trigger] ss[k].queued2() == if items_of(ups2.take(k)).len() == 0 {
            None
        } else {
            Some(items_of(ups2.take(k)).last())
        },
{
    assert forall|k: int| 0 <= k <= ups1.len() implies #[trigger] ss[k].queued1() == if items_of(ups1.take(k)).len() == 0 {
        None
    } else {
        Some(items_of(ups1.take(k)).last())
    } by {
        lemma_combine_latest_last_items_upto(ss, mids, ups1, ups2, outs, k);
    }
    assert forall|k: int| 0 <= k <= ups1.len() implies #[trigger] ss[k].queued2() == if items_of(ups2.take(k)).len() == 0 {
        None
    } else {
        Some(items_of(ups2.take(k)).last())
    } by {
        lemma_combine_latest_last_items_upto(ss, mids, ups1, ups2, outs, k);
    }
}

proof fn lemma_combine_latest_last_items_upto<S1, S2, T1: Clone, T2: Clone, E>(
    ss: Seq<CombineState<S1, S2, T1, T2>>,
    mids: Seq<CombineState<S1, S2, T1, T2>>,
    ups1: Seq<Result<Async<Option<T1>>, E>>,
    ups2: Seq<Result<Async<Option<T2>>, E>>,
    outs: Seq<Result<Async<Option<(T1, T2)>>, E>>,
    k: int,
)
    requires
        ss.len() == ups1.len() + 1,
        mids.len() == ups1.len(),
        ups2.len() == ups1.len(),
        outs.len() == ups1.len(),
        ss[0].queued1() is None,
        ss[0].queued2() is None,
        forall|j: int| 0 <= j < ups1.len() ==> #[trigger] ss[j].polled_without_error(ups1[j], mids[j], ups2[j], ss[j + 1], outs[j]),
        0 <= k <= ups1.len(),
    ensures
        ss[k].queued1() == if items_of(ups1.take(k)).len() == 0 { None } else { Some(items_of(ups1.take(k)).last()) },
        ss[k].queued2() == if items_of(ups2.take(k)).len() == 0 { None } else { Some(items_of(ups2.take(k)).last()) },
    decreases k,
{
    if k == 0 {
        assert(ups1.take(0).len() == 0);
        assert(ups2.take(0).len() == 0);
    } else {
        let j = k - 1;
        lemma_combine_latest_last_items_upto(ss, mids, ups1, ups2, outs, j);
        assert(ss[j].polled_without_error(ups1[j], mids[j], ups2[j], ss[j + 1], outs[j]));
        lemma_combine_latest_first_step_keeps_items(ss[j], ups1[j], mids[j], Ok::<(), E>(()));
        lemma_combine_latest_second_step_keeps_items(mids[j], ups2[j], ss[j + 1], outs[j]);
        assert(ups1.take(k).drop_last() =~= ups1.take(j));
        assert(ups2.take(k).drop_last() =~= ups2.take(j));
        assert(ups1.take(k).last() == ups1[j]);
        assert(ups2.take(k).last() == ups2[j]);
    }
}

/// Over a whole poll that returns no error (first step, then second step), the
/// combinator yields the pair of the latest items exactly when the poll brought a new
/// item from either source and both sources have produced something, unless both
/// sources have ended (then the stream ends); otherwise it is not ready.
pub proof fn lemma_combine_latest_yields_on_new_items<S1, S2, T1: Clone, T2: Clone, E>(
    s0: CombineState<S1, S2, T1, T2>,
    upstream1: Result<Async<Option<T1>>, E>,
    s1: CombineState<S1, S2, T1, T2>,
    upstream2: Result<Async<Option<T2>>, E>,
    s2: CombineState<S1, S2, T1, T2>,
    res: Result<Async<Option<(T1, T2)>>, E>,
)
    requires
        s0.first_polled(upstream1, s1, Ok::<(), E>(())),
        s1.second_polled(upstream2, s2, res),
        upstream2 is Ok,
    ensures
        s2.done1() && s2.done2() ==> res == Ok::<Async<Option<(T1, T2)>>, E>(Async::Ready(None)),
        !(s2.done1() && s2.done2()) ==> if (brings_item(upstream1) || brings_item(upstream2))
            && s2.queued1() is Some && s2.queued2() is Some {
            &&& res matches Ok(Async::Ready(Some(pair)))
            &&& cloned(s2.queued1()->0, pair.0)
            &&& cloned(s2.queued2()->0, pair.1)
        } else {
            res == Ok::<Async<Option<(T1, T2)>>, E>(Async::NotReady)
        },
{
    assert(s1.fresh() <==> brings_item(upstream1));
    assert(s2.fresh() <==> brings_item(upstream1) || brings_item(upstream2));
}

/// `t` is `s` with the two sources swapped: the same latest items and end flags,
/// each kept for the other side.
pub open spec fn mirrors<S1, S2, T1, T2>(s: CombineState<S1, S2, T1, T2>, t: CombineState<S2, S1, T2, T1>) -> bool {
    &&& s.queued1() == t.queued2()
    &&& s.queued2() == t.queued1()
    &&& s.done1() == t.done2()
    &&& s.done2() == t.done1()
}

/// Combining is symmetric: feeding the same error-free poll results to a state and to
/// its mirror image (sources swapped) leaves them mirror images, and the two polls
/// agree: both end the stream, both are not ready, or both yield a pair whose
/// components are clones of the same latest items, swapped.
pub proof fn lemma_combine_latest_symmetric<S1, S2, T1: Clone, T2: Clone, E>(
    s0: CombineState<S1, S2, T1, T2>,
    s1: CombineState<S1, S2, T1, T2>,
    s2: CombineState<S1, S2, T1, T2>,
    t0: CombineState<S2, S1, T2, T1>,
    t1: CombineState<S2, S1, T2, T1>,
    t2: CombineState<S2, S1, T2, T1>,
    upstream1: Result<Async<Option<T1>>, E>,
    upstream2: Result<Async<Option<T2>>, E>,
    res_s: Result<Async<Option<(T1, T2)>>, E>,
    res_t: Result<Async<Option<(T2, T1)>>, E>,
)
    requires
        mirrors(s0, t0),
        upstream1 is Ok,
        upstream2 is Ok,
        s0.first_polled(upstream1, s1, Ok::<(), E>(())),
        s1.second_polled(upstream2, s2, res_s),
        t0.first_polled(upstream2, t1, Ok::<(), E>(())),
        t1.second_polled(upstream1, t2, res_t),
    ensures
        mirrors(s2, t2),
        res_s == Ok::<Async<Option<(T1, T2)>>, E>(Async::Ready(None)) <==> res_t == Ok::<Async<Option<(T2, T1)>>, E>(Async::Ready(None)),
        res_s == Ok::<Async<Option<(T1, T2)>>, E>(Async::NotReady) <==> res_t == Ok::<Async<Option<(T2, T1)>>, E>(Async::NotReady),
        res_s matches Ok(Async::Ready(Some(p))) ==> {
            &&& res_t matches Ok(Async::Ready(Some(q)))
            &&& cloned(s2.queued1()->0, p.0) && cloned(s2.queued1()->0, q.1)
            &&& cloned(s2.queued2()->0, p.1) && cloned(s2.queued2()->0, q.0)
        },
{
    lemma_combine_latest_yields_on_new_items(s0, upstream1, s1, upstream2, s2, res_s);
    lemma_combine_latest_yields_on_new_items(t0, upstream2, t1, upstream1, t2, res_t);
    assert(mirrors(s2, t2));
}

impl<S1, S2, T1: Clone, T2: Clone> CombineState<S1, S2, T1, T2> {
    /// A whole poll without error, from `self` (through `mid`) to `next`, returning
    /// `res`: both sources answered without error, then the two steps.
    pub open spec fn polled_without_error<E>(
        self,
        upstream1: Result<Async<Option<T1>>, E>,
        mid: Self,
        upstream2: Result<Async<Option<T2>>, E>,
        next: Self,
        res: Result<Async<Option<(T1, T2)>>, E>,
    ) -> bool {
        &&& upstream1 is Ok
        &&& upstream2 is Ok
        &&& self.first_polled(upstream1, mid, Ok::<(), E>(()))
        &&& mid.second_polled(upstream2, next, res)
    }
}

/// `res_s` and `res_t` agree up to swapping the pair: both end the stream, both are
/// not ready, or both are pairs of clones of `latest1` and `latest2`, swapped.
pub open spec fn agree_swapped<T1: Clone, T2: Clone, E>(
    res_s: Result<Async<Option<(T1, T2)>>, E>,
    res_t: Result<Async<Option<(T2, T1)>>, E>,
    latest1: Option<T1>,
    latest2: Option<T2>,
) -> bool {
    &&& res_s == Ok::<Async<Option<(T1, T2)>>, E>(Async::Ready(None)) <==> res_t == Ok::<Async<Option<(T2, T1)>>, E>(Async::Ready(None))
    &&& res_s == Ok::<Async<Option<(T1, T2)>>, E>(Async::NotReady) <==> res_t == Ok::<Async<Option<(T2, T1)>>, E>(Async::NotReady)
    &&& res_s matches Ok(Async::Ready(Some(p))) ==> {
        &&& res_t matches Ok(Async::Ready(Some(q)))
        &&& cloned(latest1->0, p.0) && cloned(latest1->0, q.1)
        &&& cloned(latest2->0, p.1) && cloned(latest2->0, q.0)
    }
}

/// Combining is symmetric over whole runs: feeding the same error-free poll results,
/// poll by poll, to a fresh state and to a fresh state with the sources swapped, the
/// two runs yield the same results with each pair swapped (pairs of clones of the
/// same latest items), and stay mirror images of each other throughout.
pub proof fn lemma_combine_latest_symmetric_run<S1, S2, T1: Clone, T2: Clone, E>(
    ss: Seq<CombineState<S1, S2, T1, T2>>,
    smids: Seq<CombineState<S1, S2, T1, T2>>,
    ts: Seq<CombineState<S2, S1, T2, T1>>,
    tmids: Seq<CombineState<S2, S1, T2, T1>>,
    ups1: Seq<Result<Async<Option<T1>>, E>>,
    ups2: Seq<Result<Async<Option<T2>>, E>>,
    outs_s: Seq<Result<Async<Option<(T1, T2)>>, E>>,
    outs_t: Seq<Result<Async<Option<(T2, T1)>>, E>>,
)
    requires
        ss.len() == ups1.len() + 1,
        ts.len() == ups1.len() + 1,
        smids.len() == ups1.len(),
        tmids.len() == ups1.len(),
        ups2.len() == ups1.len(),
        outs_s.len() == ups1.len(),
        outs_t.len() == ups1.len(),
        mirrors(ss[0], ts[0]),
        forall|j: int| 0 <= j < ups1.len() ==> #[trigger] ss[j].polled_without_error(ups1[j], smids[j], ups2[j], ss[j + 1], outs_s[j]),
        forall|j: int| 0 <= j < ups1.len() ==> #[trigger] ts[j].polled_without_error(ups2[j], tmids[j], ups1[j], ts[j + 1], outs_t[j]),
    ensures
        forall|k: int| 0 <= k <= ups1.len() ==> mirrors(#[trigger] ss[k], ts[k]),
        forall|j: int| 0 <= j < ups1.len() ==> agree_swapped(#[trigger] outs_s[j], outs_t[j], ss[j + 1].queued1(), ss[j + 1].queued2()),
{
    assert forall|k: int| 0 <= k <= ups1.len() implies mirrors(#[trigger] ss[k], ts[k]) by {
        lemma_combine_latest_mirrored_upto(ss, smids, ts, tmids, ups1, ups2, outs_s, outs_t, k);
    }
    assert forall|j: int| 0 <= j < ups1.len() implies agree_swapped(#[trigger] outs_s[j], outs_t[j], ss[j + 1].queued1(), ss[j + 1].queued2()) by {
        lemma_combine_latest_mirrored_upto(ss, smids, ts, tmids, ups1, ups2, outs_s, outs_t, j);
        assert(ss[j].polled_without_error(ups1[j], smids[j], ups2[j], ss[j + 1], outs_s[j]));
        assert(ts[j].polled_without_error(ups2[j], tmids[j], ups1[j], ts[j + 1], outs_t[j]));
        lemma_combine_latest_symmetric(ss[j], smids[j], ss[j + 1], ts[j], tmids[j], ts[j + 1], ups1[j], ups2[j], outs_s[j], outs_t[j]);
    }
}

proof fn lemma_combine_latest_mirrored_upto<S1, S2, T1: Clone, T2: Clone, E>(
    ss: Seq<CombineState<S1, S2, T1, T2>>,
    smids: Seq<CombineState<S1, S2, T1, T2>>,
    ts: Seq<CombineState<S2, S1, T2, T1>>,
    tmids: Seq<CombineState<S2, S1, T2, T1>>,
    ups1: Seq<Result<Async<Option<T1>>, E>>,
    ups2: Seq<Result<Async<Option<T2>>, E>>,
    outs_s: Seq<Result<Async<Option<(T1, T2)>>, E>>,
    outs_t: Seq<Result<Async<Option<(T2, T1)>>, E>>,
    k: int,
)
    requires
        ss.len() == ups1.len() + 1,
        ts.len() == ups1.len() + 1,
        smids.len() == ups1.len(),
        tmids.len() == ups1.len(),
        ups2.len() == ups1.len(),
        outs_s.len() == ups1.len(),
        outs_t.len() == ups1.len(),
        mirrors(ss[0], ts[0]),
        forall|j: int| 0 <= j < ups1.len() ==> #[trigger] ss[j].polled_without_error(ups1[j], smids[j], ups2[j], ss[j + 1], outs_s[j]),
        forall|j: int| 0 <= j < ups1.len() ==> #[trigger] ts[j].polled_without_error(ups2[j], tmids[j], ups1[j], ts[j + 1], outs_t[j]),
        0 <= k <= ups1.len(),
    ensures
        mirrors(ss[k], ts[k]),
    decreases k,
{
    if k > 0 {
        let j = k - 1;
        lemma_combine_latest_mirrored_upto(ss, smids, ts, tmids, ups1, ups2, outs_s, outs_t, j);
        assert(ss[j].polled_without_error(ups1[j], smids[j], ups2[j], ss[j + 1], outs_s[j]));
        assert(ts[j].polled_without_error(ups2[j], tmids[j], ups1[j], ts[j + 1], outs_t[j]));
        lemma_combine_latest_symmetric(ss[j], smids[j], ss[j + 1], ts[j], tmids[j], ts[j + 1], ups1[j], ups2[j], outs_s[j], outs_t[j]);
    }
}

} // verus!
