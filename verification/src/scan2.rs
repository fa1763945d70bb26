use std::marker::PhantomData;
use vstd::prelude::*;
use crate::poll::Async;

verus! {

/// A stream combinator that threads an accumulator through its items and yields,
/// for each item, a value computed alongside the new accumulator (the accumulator
/// itself is not yielded).
pub struct Scan2State<S, F, T, R> {
    /// The upstream source; polling it is up to the owner of this state.
    pub stream: S,
    f: F,
    state: Option<T>,
    _marker: PhantomData<R>,
}

/// What one item does to a `Scan2State`: the step function maps the accumulator
/// `acc` and the item `v` to the new accumulator `new_acc` and the yielded `out`.
pub open spec fn scan2_step<F: Fn(T, I) -> (T, R), T, I, R>(f: F, acc: T, v: I, new_acc: T, out: R) -> bool {
    call_ensures(f, (acc, v), (new_acc, out))
}

impl<S, F, T, R> Scan2State<S, F, T, R> {
    /// The accumulator is always present between polls.
    pub closed spec fn wf(&self) -> bool {
        self.state is Some
    }

    /// The upstream source.
    pub closed spec fn upstream(&self) -> S {
        self.stream
    }

    /// The current accumulator.
    pub closed spec fn acc(&self) -> T {
        self.state->0
    }

    /// The step function.
    pub closed spec fn func(&self) -> F {
        self.f
    }

    /// Feeds the result of polling the upstream source; yields the value the step
    /// function returns for a new item, and passes end-of-stream, "not ready" and
    /// errors through unchanged.
    pub fn poll<I, E>(&mut self, upstream: Result<Async<Option<I>>, E>) -> (res: Result<Async<Option<R>>, E>)
        where F: Fn(T, I) -> (T, R)
        requires
            old(self).wf(),
            upstream matches Ok(Async::Ready(Some(v))) ==> call_requires(old(self).func(), (old(self).acc(), v)),
        ensures
            final(self).wf(),
            final(self).func() == old(self).func(),
            final(self).upstream() == old(self).upstream(),
            match upstream {
                Ok(Async::Ready(Some(v))) => res matches Ok(Async::Ready(Some(r)))
                    && scan2_step(old(self).func(), old(self).acc(), v, final(self).acc(), r),
                Ok(Async::Ready(None)) => res matches Ok(Async::Ready(None)) && final(self).acc() == old(self).acc(),
                Ok(Async::NotReady) => res matches Ok(Async::NotReady) && final(self).acc() == old(self).acc(),
                Err(e) => res == Err::<Async<Option<R>>, E>(e) && final(self).acc() == old(self).acc(),
            },
    {
        match upstream {
            Ok(Async::Ready(Some(v))) => {
                let acc = self.state.take().unwrap();
                assert(call_requires(old(self).func(), (acc, v)));
                let (new_state, next_value) = (self.f)(acc, v);
                self.state = Some(new_state);
                Ok(Async::Ready(Some(next_value)))
            }
            Ok(Async::Ready(None)) => Ok(Async::Ready(None)),
            Ok(Async::NotReady) => Ok(Async::NotReady),
            Err(e) => Err(e),
        }
    }
}

/// Builds a [`Scan2State`] over a source, starting from the accumulator `t`.
pub trait Scan2: Sized {
    fn scan2<F, T, R>(self, t: T, f: F) -> (res: Scan2State<Self, F, T, R>)
        ensures
            res.wf(),
            res.upstream() == self,
            res.acc() == t,
            res.func() == f,
    {
        Scan2State { stream: self, f: f, state: Some(t), _marker: PhantomData }
    }
}

impl<S> Scan2 for S {}

/// The accumulator after feeding `xs` to a step function that behaves as `g`.
pub open spec fn thread_acc<T, I, R>(g: spec_fn(T, I) -> (T, R), init: T, xs: Seq<I>) -> T
    decreases xs.len(),
{
    if xs.len() == 0 {
        init
    } else {
        g(thread_acc(g, init, xs.drop_last()), xs.last()).0
    }
}

/// The accumulator is threaded through the items: when the step function behaves as
/// the function `g`, over a run of successive items the accumulator before the `k`-th
/// item is the one `g` produces from the items before it, and the value yielded for
/// the `k`-th item is what `g` returns alongside.
pub proof fn lemma_scan2_threads_accumulator<F: Fn(T, I) -> (T, R), T, I, R>(
    f: F,
    g: spec_fn(T, I) -> (T, R),
    xs: Seq<I>,
    accs: Seq<T>,
    outs: Seq<R>,
)
    requires
        forall|a: T, v: I, r: (T, R)| #[trigger] call_ensures(f, (a, v), r) ==> r == g(a, v),
        accs.len() == xs.len() + 1,
        outs.len() == xs.len(),
        forall|j: int| 0 <= j < xs.len() ==> #[trigger] scan2_step(f, accs[j], xs[j], accs[j + 1], outs[j]),
    ensures
        forall|k: int| 0 <= k <= xs.len() ==> #[trigger] accs[k] == thread_acc(g, accs[0], xs.take(k)),
        forall|k: int| 0 <= k < xs.len() ==> #[trigger] outs[k] == g(accs[k], xs[k]).1,
{
    assert forall|k: int| 0 <= k <= xs.len() implies #[trigger] accs[k] == thread_acc(g, accs[0], xs.take(k)) by {
        lemma_scan2_acc_upto(f, g, xs, accs, outs, k);
    }
    assert forall|k: int| 0 <= k < xs.len() implies #[trigger] outs[k] == g(accs[k], xs[k]).1 by {
        assert(scan2_step(f, accs[k], xs[k], accs[k + 1], outs[k]));
    }
}

/// With a trivial accumulator, scanning is mapping: when the step function behaves as
/// `|(), v| ((), g(v))`, the value yielded for each item of a run is `g` of that item.
pub proof fn lemma_scan2_with_unit_state_is_map<F: Fn((), I) -> ((), R), I, R>(
    f: F,
    g: spec_fn(I) -> R,
    xs: Seq<I>,
    accs: Seq<()>,
    outs: Seq<R>,
)
    requires
        forall|a: (), v: I, r: ((), R)| #[trigger] call_ensures(f, (a, v), r) ==> r == ((), g(v)),
        accs.len() == xs.len() + 1,
        outs.len() == xs.len(),
        forall|j: int| 0 <= j < xs.len() ==> #[trigger] scan2_step(f, accs[j], xs[j], accs[j + 1], outs[j]),
    ensures
        forall|k: int| 0 <= k < xs.len() ==> #[trigger] outs[k] == g(xs[k]),
{
    let step = |a: (), v: I| ((), g(v));
    lemma_scan2_threads_accumulator(f, step, xs, accs, outs);
    assert forall|k: int| 0 <= k < xs.len() implies #[trigger] outs[k] == g(xs[k]) by {
        assert(outs[k] == step(accs[k], xs[k]).1);
    }
}

proof fn lemma_scan2_acc_upto<F: Fn(T, I) -> (T, R), T, I, R>(
    f: F,
    g: spec_fn(T, I) -> (T, R),
    xs: Seq<I>,
    accs: Seq<T>,
    outs: Seq<R>,
    k: int,
)
    requires
        forall|a: T, v: I, r: (T, R)| #[trigger] call_ensures(f, (a, v), r) ==> r == g(a, v),
        accs.len() == xs.len() + 1,
        outs.len() == xs.len(),
        forall|j: int| 0 <= j < xs.len() ==> #[trigger] scan2_step(f, accs[j], xs[j], accs[j + 1], outs[j]),
        0 <= k <= xs.len(),
    ensures
        accs[k] == thread_acc(g, accs[0], xs.take(k)),
    decreases k,
{
    if k > 0 {
        let j = k - 1;
        lemma_scan2_acc_upto(f, g, xs, accs, outs, j);
        assert(scan2_step(f, accs[j], xs[j], accs[j + 1], outs[j]));
        assert(xs.take(k).drop_last() =~= xs.take(j));
    }
}

} // verus!
