use vstd::prelude::*;
use crate::poll::Async;

verus! {

/// A stream combinator that drops an item when the predicate says it equals the
/// last item passed on.
pub struct DistinctState<S, F, T> {
    /// The upstream source; polling it is up to the owner of this state.
    pub stream: S,
    f: F,
    value: Option<T>,
}

/// What one new item `e` does to a `DistinctState` whose last passed-on item is
/// `last`: `res` is what the poll returns and `new_last` the new last item. The item
/// is passed on (and a clone of it kept) when nothing was passed on before or the
/// predicate, asked whether `e` equals `last`, said no; otherwise it is dropped
/// (`None`) and the state is left as it was.
pub open spec fn distinct_step<F: Fn(&T, &T) -> bool, T: Clone, E>(
    f: F,
    last: Option<T>,
    e: T,
    new_last: Option<T>,
    res: Option<Result<Async<Option<T>>, E>>,
) -> bool {
    let passed = res == Some(Ok::<Async<Option<T>>, E>(Async::Ready(Some(e))))
        && (new_last matches Some(c) && cloned(e, c));
    match last {
        None => passed,
        Some(v) => exists|same: bool| #[trigger] call_ensures(f, (&e, &v), same)
            && if same { res is None && new_last == last } else { passed },
    }
}

impl<S, F, T> DistinctState<S, F, T> {
    /// The upstream source.
    pub closed spec fn upstream(&self) -> S {
        self.stream
    }

    /// The last item passed on, if any.
    pub closed spec fn last(&self) -> Option<T> {
        self.value
    }

    /// The equality predicate.
    pub closed spec fn func(&self) -> F {
        self.f
    }

    /// Feeds the result of polling the upstream source once. `None` means the new
    /// item was a duplicate and was dropped: the upstream source should be polled
    /// again. Otherwise the result is what this poll returns: a distinct item, or
    /// end-of-stream, "not ready" or an error passed through unchanged.
    pub fn poll<E>(&mut self, upstream: Result<Async<Option<T>>, E>) -> (res: Option<Result<Async<Option<T>>, E>>)
        where F: Fn(&T, &T) -> bool, T: Clone
        requires
            upstream matches Ok(Async::Ready(Some(e))) ==> (old(self).last() matches Some(v) ==> call_requires(old(self).func(), (&e, &v))),
        ensures
            final(self).func() == old(self).func(),
            final(self).upstream() == old(self).upstream(),
            match upstream {
                Ok(Async::Ready(Some(e))) => distinct_step(old(self).func(), old(self).last(), e, final(self).last(), res),
                Ok(Async::Ready(None)) => res == Some(Ok::<Async<Option<T>>, E>(Async::Ready(None)))
                    && final(self).last() == old(self).last(),
                Ok(Async::NotReady) => res == Some(Ok::<Async<Option<T>>, E>(Async::NotReady))
                    && final(self).last() == old(self).last(),
                Err(e) => res == Some(Err::<Async<Option<T>>, E>(e)) && final(self).last() == old(self).last(),
            },
    {
        match upstream {
            Ok(Async::Ready(Some(e))) => {
                let mut distinct = false;
                match &self.value {
                    None => {
                        distinct = true;
                    }
                    Some(v) => {
                        assert(call_requires(old(self).func(), (&e, v)));
                        let same = (self.f)(&e, v);
                        if !same {
                            distinct = true;
                        }
                    }
                }
                if distinct {
                    let kept = e.clone();
                    self.value = Some(kept);
                    Some(Ok(Async::Ready(Some(e))))
                } else {
                    None
                }
            }
            Ok(Async::Ready(None)) => Some(Ok(Async::Ready(None))),
            Ok(Async::NotReady) => Some(Ok(Async::NotReady)),
            Err(err) => Some(Err(err)),
        }
    }
}

/// Builds a [`DistinctState`] over a source, with `f` deciding whether two items are equal.
pub trait Distinct: Sized {
    fn distinct<F, T>(self, f: F) -> (res: DistinctState<Self, F, T>)
        ensures
            res.upstream() == self,
            res.last() is None,
            res.func() == f,
    {
        DistinctState { stream: self, f: f, value: None }
    }
}

impl<S> Distinct for S {}

/// `eq` is an equivalence relation.
pub open spec fn is_equivalence<T>(eq: spec_fn(T, T) -> bool) -> bool {
    &&& forall|a: T| #[trigger] eq(a, a)
    &&& forall|a: T, b: T| #[trigger] eq(a, b) ==> eq(b, a)
    &&& forall|a: T, b: T, c: T| #[trigger] eq(a, b) && #[trigger] eq(b, c) ==> eq(a, c)
}

/// The premises shared by the laws of a run of successive items fed to a fresh
/// `DistinctState`.
pub open spec fn distinct_run<F: Fn(&T, &T) -> bool, T: Clone, E>(
    f: F,
    xs: Seq<T>,
    lasts: Seq<Option<T>>,
    outs: Seq<Option<Result<Async<Option<T>>, E>>>,
) -> bool {
    &&& lasts.len() == xs.len() + 1
    &&& outs.len() == xs.len()
    &&& lasts[0] is None
    &&& forall|j: int| 0 <= j < xs.len() ==> #[trigger] distinct_step(f, lasts[j], xs[j], lasts[j + 1], outs[j])
}

/// After at least one item, the last item passed on is equal (by `eq`) to the
/// latest item seen.
proof fn lemma_distinct_last_matches_latest<F: Fn(&T, &T) -> bool, T: Clone, E>(
    f: F,
    eq: spec_fn(T, T) -> bool,
    xs: Seq<T>,
    lasts: Seq<Option<T>>,
    outs: Seq<Option<Result<Async<Option<T>>, E>>>,
    k: int,
)
    requires
        forall|a: &T, b: &T, r: bool| #[trigger] call_ensures(f, (a, b), r) ==> r == eq(*a, *b),
        forall|a: T, b: T| #[trigger] cloned(a, b) ==> a == b,
        is_equivalence(eq),
        distinct_run(f, xs, lasts, outs),
        1 <= k <= xs.len(),
    ensures
        lasts[k] matches Some(w) && eq(xs[k - 1], w),
    decreases k,
{
    let j = k - 1;
    assert(distinct_step(f, lasts[j], xs[j], lasts[j + 1], outs[j]));
    if k == 1 {
        assert(lasts[j + 1] matches Some(c) && cloned(xs[j], c));
    } else {
        lemma_distinct_last_matches_latest(f, eq, xs, lasts, outs, k - 1);
        let w = lasts[j]->0;
        let same = choose|same: bool| #[trigger] call_ensures(f, (&xs[j], &w), same)
            && if same { outs[j] is None && lasts[j + 1] == lasts[j] } else {
                outs[j] == Some(Ok::<Async<Option<T>>, E>(Async::Ready(Some(xs[j]))))
                    && (lasts[j + 1] matches Some(c) && cloned(xs[j], c))
            };
        assert(same == eq(xs[j], w));
    }
}

/// Distinct drops exactly the consecutive duplicates: when the predicate behaves as
/// the equivalence relation `eq` and cloning copies, the `k`-th item of a run fed to
/// a fresh `DistinctState` is passed on unchanged when it is the first item or is not
/// equal to the item just before it, and is dropped otherwise.
pub proof fn lemma_distinct_drops_consecutive_duplicates<F: Fn(&T, &T) -> bool, T: Clone, E>(
    f: F,
    eq: spec_fn(T, T) -> bool,
    xs: Seq<T>,
    lasts: Seq<Option<T>>,
    outs: Seq<Option<Result<Async<Option<T>>, E>>>,
)
    requires
        forall|a: &T, b: &T, r: bool| #[trigger] call_ensures(f, (a, b), r) ==> r == eq(*a, *b),
        forall|a: T, b: T| #[trigger] cloned(a, b) ==> a == b,
        is_equivalence(eq),
        distinct_run(f, xs, lasts, outs),
    ensures
        forall|k: int| 0 <= k < xs.len() ==> #[trigger] outs[k] == if k == 0 || !eq(xs[k], xs[k - 1]) {
            Some(Ok::<Async<Option<T>>, E>(Async::Ready(Some(xs[k]))))
        } else {
            None
        },
{
    assert forall|k: int| 0 <= k < xs.len() implies #[trigger] outs[k] == if k == 0 || !eq(xs[k], xs[k - 1]) {
        Some(Ok::<Async<Option<T>>, E>(Async::Ready(Some(xs[k]))))
    } else {
        None
    } by {
        assert(distinct_step(f, lasts[k], xs[k], lasts[k + 1], outs[k]));
        if k > 0 {
            lemma_distinct_last_matches_latest(f, eq, xs, lasts, outs, k);
            let w = lasts[k]->0;
            let same = choose|same: bool| #[trigger] call_ensures(f, (&xs[k], &w), same)
                && if same { outs[k] is None && lasts[k + 1] == lasts[k] } else {
                    outs[k] == Some(Ok::<Async<Option<T>>, E>(Async::Ready(Some(xs[k]))))
                        && (lasts[k + 1] matches Some(c) && cloned(xs[k], c))
                };
            assert(same == eq(xs[k], w));
            assert(eq(xs[k - 1], w));
            if eq(xs[k], w) {
                assert(eq(w, xs[k - 1]));
                assert(eq(xs[k], xs[k - 1]));
            } else {
                if eq(xs[k], xs[k - 1]) {
                    assert(eq(xs[k], w));
                }
            }
        }
    }
}

/// The items that the predicate `eq` keeps from `xs`, in order: an item is kept when
/// nothing was kept before it, or when `eq` says it does not equal the last item kept.
pub open spec fn dedup_by<T>(eq: spec_fn(T, T) -> bool, xs: Seq<T>) -> Seq<T>
    decreases xs.len(),
{
    if xs.len() == 0 {
        Seq::empty()
    } else {
        let kept = dedup_by(eq, xs.drop_last());
        if kept.len() == 0 || !eq(xs.last(), kept.last()) {
            kept.push(xs.last())
        } else {
            kept
        }
    }
}

/// The items passed on among the results of successive polls, in order.
pub open spec fn passed_on<T, E>(outs: Seq<Option<Result<Async<Option<T>>, E>>>) -> Seq<T>
    decreases outs.len(),
{
    if outs.len() == 0 {
        Seq::empty()
    } else {
        let before = passed_on(outs.drop_last());
        match outs.last() {
            Some(Ok(Async::Ready(Some(x)))) => before.push(x),
            _ => before,
        }
    }
}

/// The items passed on are exactly those the predicate keeps, whatever the predicate:
/// when it behaves as `eq` and cloning copies, after `k` successive items fed to a
/// fresh `DistinctState`, the items passed on so far are `dedup_by(eq, ..)` of those
/// `k` items, and the last item passed on is the last of them.
pub proof fn lemma_distinct_passes_on_dedup<F: Fn(&T, &T) -> bool, T: Clone, E>(
    f: F,
    eq: spec_fn(T, T) -> bool,
    xs: Seq<T>,
    lasts: Seq<Option<T>>,
    outs: Seq<Option<Result<Async<Option<T>>, E>>>,
)
    requires
        forall|a: &T, b: &T, r: bool| #[trigger] call_ensures(f, (a, b), r) ==> r == eq(*a, *b),
        forall|a: T, b: T| #[trigger] cloned(a, b) ==> a == b,
        distinct_run(f, xs, lasts, outs),
    ensures
        forall|k: int| 0 <= k <= xs.len() ==> #[trigger] passed_on(outs.take(k)) == dedup_by(eq, xs.take(k)),
        forall|k: int| 0 <= k <= xs.len() ==> #[trigger] lasts[k] == if dedup_by(eq, xs.take(k)).len() == 0 {
            None
        } else {
            Some(dedup_by(eq, xs.take(k)).last())
        },
{
    assert forall|k: int| 0 <= k <= xs.len() implies #[trigger] passed_on(outs.take(k)) == dedup_by(eq, xs.take(k)) by {
        lemma_distinct_dedup_upto(f, eq, xs, lasts, outs, k);
    }
    assert forall|k: int| 0 <= k <= xs.len() implies #[trigger] lasts[k] == if dedup_by(eq, xs.take(k)).len() == 0 {
        None
    } else {
        Some(dedup_by(eq, xs.take(k)).last())
    } by {
        lemma_distinct_dedup_upto(f, eq, xs, lasts, outs, k);
    }
}

proof fn lemma_distinct_dedup_upto<F: Fn(&T, &T) -> bool, T: Clone, E>(
    f: F,
    eq: spec_fn(T, T) -> bool,
    xs: Seq<T>,
    lasts: Seq<Option<T>>,
    outs: Seq<Option<Result<Async<Option<T>>, E>>>,
    k: int,
)
    requires
        forall|a: &T, b: &T, r: bool| #[trigger] call_ensures(f, (a, b), r) ==> r == eq(*a, *b),
        forall|a: T, b: T| #[trigger] cloned(a, b) ==> a == b,
        distinct_run(f, xs, lasts, outs),
        0 <= k <= xs.len(),
    ensures
        passed_on(outs.take(k)) == dedup_by(eq, xs.take(k)),
        lasts[k] == if dedup_by(eq, xs.take(k)).len() == 0 {
            None
        } else {
            Some(dedup_by(eq, xs.take(k)).last())
        },
    decreases k,
{
    if k == 0 {
        assert(outs.take(0).len() == 0);
        assert(xs.take(0).len() == 0);
    } else {
        let j = k - 1;
        lemma_distinct_dedup_upto(f, eq, xs, lasts, outs, j);
        assert(distinct_step(f, lasts[j], xs[j], lasts[j + 1], outs[j]));
        assert(xs.take(k).drop_last() =~= xs.take(j));
        assert(outs.take(k).drop_last() =~= outs.take(j));
        assert(xs.take(k).last() == xs[j]);
        assert(outs.take(k).last() == outs[j]);
        if lasts[j] is Some {
            let w = lasts[j]->0;
            let same = choose|same: bool| #[trigger] call_ensures(f, (&xs[j], &w), same)
                && if same { outs[j] is None && lasts[j + 1] == lasts[j] } else {
                    outs[j] == Some(Ok::<Async<Option<T>>, E>(Async::Ready(Some(xs[j]))))
                        && (lasts[j + 1] matches Some(c) && cloned(xs[j], c))
                };
            assert(same == eq(xs[j], w));
        }
    }
}

/// Consecutive items that distinct passes on are never equal by its predicate: in
/// `dedup_by(eq, xs)`, no item is equal (by `eq`) to the one before it.
pub proof fn lemma_dedup_no_adjacent_equal<T>(eq: spec_fn(T, T) -> bool, xs: Seq<T>)
    ensures
        forall|i: int| 0 <= i < dedup_by(eq, xs).len() - 1 ==> !eq(#[trigger] dedup_by(eq, xs)[i + 1], dedup_by(eq, xs)[i]),
    decreases xs.len(),
{
    if xs.len() > 0 {
        let kept = dedup_by(eq, xs.drop_last());
        lemma_dedup_no_adjacent_equal(eq, xs.drop_last());
        let d = dedup_by(eq, xs);
        assert forall|i: int| 0 <= i < d.len() - 1 implies !eq(#[trigger] d[i + 1], d[i]) by {
            if i + 1 < kept.len() {
                assert(d[i + 1] == kept[i + 1] && d[i] == kept[i]);
                assert(!eq(kept[i + 1], kept[i]));
            }
        }
    }
}

/// A sequence in which no item equals (by `eq`) the one before it is left as it is.
proof fn lemma_dedup_keeps_distinct_runs<T>(eq: spec_fn(T, T) -> bool, ys: Seq<T>)
    requires
        forall|i: int| 0 <= i < ys.len() - 1 ==> !eq(#[trigger] ys[i + 1], ys[i]),
    ensures
        dedup_by(eq, ys) == ys,
    decreases ys.len(),
{
    if ys.len() > 0 {
        let front = ys.drop_last();
        assert forall|i: int| 0 <= i < front.len() - 1 implies !eq(#[trigger] front[i + 1], front[i]) by {
            assert(front[i + 1] == ys[i + 1]);
        }
        lemma_dedup_keeps_distinct_runs(eq, front);
        if front.len() > 0 {
            let i = ys.len() - 2;
            assert(!eq(ys[i + 1], ys[i]));
        }
        assert(front.push(ys.last()) =~= ys);
    }
}

/// Distinct is idempotent: applying it again, with the same predicate, to what it
/// passed on changes nothing.
pub proof fn lemma_dedup_idempotent<T>(eq: spec_fn(T, T) -> bool, xs: Seq<T>)
    ensures
        dedup_by(eq, dedup_by(eq, xs)) == dedup_by(eq, xs),
{
    lemma_dedup_no_adjacent_equal(eq, xs);
    lemma_dedup_keeps_distinct_runs(eq, dedup_by(eq, xs));
}

} // verus!
