use vstd::prelude::*;
use crate::poll::Async;

verus! {

/// A stream combinator that folds its items into an accumulator and yields the
/// accumulator after each item: like a fold that reports every intermediate value.
pub struct Scan3State<S, F, T> {
    /// The upstream source; polling it is up to the owner of this state.
    pub stream: S,
    f: F,
    state: Option<T>,
}

/// What one item does to a `Scan3State`: the step function maps the accumulator
/// `acc` and the item `v` to some `next`; the state keeps a clone of `next` and a
/// clone of it is yielded as `out`.
pub open spec fn scan3_step<F: Fn(T, I) -> T, T: Clone, I>(f: F, acc: T, v: I, new_acc: T, out: T) -> bool {
    exists|next: T| #[trigger] call_ensures(f, (acc, v), next) && cloned(next, new_acc) && cloned(next, out)
}

impl<S, F, T> Scan3State<S, F, T> {
    /// The accumulator is always present between polls.
    pub closed spec fn wf(&self) -> bool {
        self.state is Some
    }

    /// The upstream source.
    pub closed spec fn upstream(&self) -> S {
        self.stream
    }

    /// The current accumulator.
    pub closed spec fn acc(&self) -> T {
        self.state->0
    }

    /// The step function.
    pub closed spec fn func(&self) -> F {
        self.f
    }

    /// Feeds the result of polling the upstream source; for a new item, yields the
    /// new accumulator, and passes end-of-stream, "not ready" and errors through.
    pub fn poll_next<I, E>(&mut self, upstream: Result<Async<Option<I>>, E>) -> (res: Result<Async<Option<T>>, E>)
        where F: Fn(T, I) -> T, T: Clone
        requires
            old(self).wf(),
            upstream matches Ok(Async::Ready(Some(v))) ==> call_requires(old(self).func(), (old(self).acc(), v)),
        ensures
            final(self).wf(),
            final(self).func() == old(self).func(),
            final(self).upstream() == old(self).upstream(),
            match upstream {
                Ok(Async::Ready(Some(v))) => res matches Ok(Async::Ready(Some(out)))
                    && scan3_step(old(self).func(), old(self).acc(), v, final(self).acc(), out),
                Ok(Async::Ready(None)) => res matches Ok(Async::Ready(None)) && final(self).acc() == old(self).acc(),
                Ok(Async::NotReady) => res matches Ok(Async::NotReady) && final(self).acc() == old(self).acc(),
                Err(e) => res == Err::<Async<Option<T>>, E>(e) && final(self).acc() == old(self).acc(),
            },
    {
        match upstream {
            Ok(Async::Ready(Some(v))) => {
                let acc = self.state.take().unwrap();
                assert(call_requires(old(self).func(), (acc, v)));
                let new_state = (self.f)(acc, v);
                let kept = new_state.clone();
                let out = new_state.clone();
                self.state = Some(kept);
                Ok(Async::Ready(Some(out)))
            }
            Ok(Async::Ready(None)) => Ok(Async::Ready(None)),
            Ok(Async::NotReady) => Ok(Async::NotReady),
            Err(e) => Err(e),
        }
    }
}

/// Builds a [`Scan3State`] over a source, starting from the accumulator `t`.
pub trait Scan3: Sized {
    fn scan3<F, T>(self, t: T, f: F) -> (res: Scan3State<Self, F, T>)
        ensures
            res.wf(),
            res.upstream() == self,
            res.acc() == t,
            res.func() == f,
    {
        Scan3State { stream: self, f: f, state: Some(t) }
    }
}

impl<S> Scan3 for S {}

/// The left fold of `g` over `xs`, starting from `init`.
pub open spec fn fold_items<T, I>(g: spec_fn(T, I) -> T, init: T, xs: Seq<I>) -> T
    decreases xs.len(),
{
    if xs.len() == 0 {
        init
    } else {
        g(fold_items(g, init, xs.drop_last()), xs.last())
    }
}

/// The accumulator after `k` successive items is the fold of the step function over them.
proof fn lemma_scan3_acc_is_fold<F: Fn(T, I) -> T, T: Clone, I>(
    f: F,
    g: spec_fn(T, I) -> T,
    xs: Seq<I>,
    accs: Seq<T>,
    outs: Seq<T>,
    k: int,
)
    requires
        forall|a: T, v: I, r: T| #[trigger] call_ensures(f, (a, v), r) ==> r == g(a, v),
        forall|a: T, b: T| #[trigger] cloned(a, b) ==> a == b,
        accs.len() == xs.len() + 1,
        outs.len() == xs.len(),
        forall|j: int| 0 <= j < xs.len() ==> #[trigger] scan3_step(f, accs[j], xs[j], accs[j + 1], outs[j]),
        0 <= k <= xs.len(),
    ensures
        accs[k] == fold_items(g, accs[0], xs.take(k)),
    decreases k,
{
    if k == 0 {
        assert(xs.take(0).len() == 0);
    } else {
        lemma_scan3_acc_is_fold(f, g, xs, accs, outs, k - 1);
        let j = k - 1;
        assert(scan3_step(f, accs[j], xs[j], accs[j + 1], outs[j]));
        let next = choose|next: T| #[trigger] call_ensures(f, (accs[j], xs[j]), next)
            && cloned(next, accs[j + 1]) && cloned(next, outs[j]);
        assert(next == accs[k]);
        assert(xs.take(k).drop_last() =~= xs.take(k - 1));
    }
}

/// Scanning yields the running aggregate: when the step function behaves as the
/// function `g` and cloning copies, the value yielded for the `k`-th item of a run of
/// successive items is the fold of `g` over the items up to and including it, and it
/// is also the accumulator kept for the next item.
pub proof fn lemma_scan3_yields_running_fold<F: Fn(T, I) -> T, T: Clone, I>(
    f: F,
    g: spec_fn(T, I) -> T,
    xs: Seq<I>,
    accs: Seq<T>,
    outs: Seq<T>,
)
    requires
        forall|a: T, v: I, r: T| #[trigger] call_ensures(f, (a, v), r) ==> r == g(a, v),
        forall|a: T, b: T| #[trigger] cloned(a, b) ==> a == b,
        accs.len() == xs.len() + 1,
        outs.len() == xs.len(),
        forall|j: int| 0 <= j < xs.len() ==> #[trigger] scan3_step(f, accs[j], xs[j], accs[j + 1], outs[j]),
    ensures
        forall|k: int| 0 <= k < xs.len() ==> {
            &&& #[trigger] outs[k] == fold_items(g, accs[0], xs.take(k + 1))
            &&& accs[k + 1] == outs[k]
        },
{
    assert forall|k: int| 0 <= k < xs.len() implies {
        &&& #[trigger] outs[k] == fold_items(g, accs[0], xs.take(k + 1))
        &&& accs[k + 1] == outs[k]
    } by {
        lemma_scan3_acc_is_fold(f, g, xs, accs, outs, k + 1);
        assert(scan3_step(f, accs[k], xs[k], accs[k + 1], outs[k]));
        let next = choose|next: T| #[trigger] call_ensures(f, (accs[k], xs[k]), next)
            && cloned(next, accs[k + 1]) && cloned(next, outs[k]);
        assert(next == outs[k]);
    }
}

} // verus!
