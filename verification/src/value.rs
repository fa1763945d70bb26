use vstd::prelude::*;
use crate::poll::Async;

verus! {

/// A future combinator that waits for a future and then resolves to a fixed value
/// in place of the future's own output.
pub struct ValueState<F, V> {
    /// The awaited future; polling it is up to the owner of this state.
    pub future: F,
    value: Option<V>,
}

impl<F, V> ValueState<F, V> {
    /// The awaited future.
    pub closed spec fn inner(&self) -> F {
        self.future
    }

    /// The value still to be handed out; `None` once it has been handed out.
    pub closed spec fn held(&self) -> Option<V> {
        self.value
    }

    /// Lends the awaited future, for polling it.
    pub fn future_mut(&mut self) -> (r: &mut F)
        ensures
            *r == old(self).inner(),
            final(self).inner() == *final(r),
            final(self).held() == old(self).held(),
    {
        &mut self.future
    }

    /// Whether the value is still to be handed out.
    pub fn has_value(&self) -> (b: bool)
        ensures
            b == self.held() is Some,
    {
        self.value.is_some()
    }

    /// Feeds the result of polling the awaited future: once it is ready, its output
    /// is discarded and the fixed value is handed out (only once); "not ready" and
    /// errors pass through.
    pub fn poll<X, E>(&mut self, upstream: Result<Async<X>, E>) -> (res: Result<Async<V>, E>)
        requires
            upstream matches Ok(Async::Ready(_)) ==> old(self).held() is Some,
        ensures
            final(self).inner() == old(self).inner(),
            match upstream {
                Ok(Async::Ready(_)) => res == Ok::<Async<V>, E>(Async::Ready(old(self).held()->0))
                    && final(self).held() is None,
                Ok(Async::NotReady) => res == Ok::<Async<V>, E>(Async::NotReady) && final(self).held() == old(self).held(),
                Err(e) => res == Err::<Async<V>, E>(e) && final(self).held() == old(self).held(),
            },
    {
        match upstream {
            Ok(Async::Ready(_)) => Ok(Async::Ready(self.value.take().unwrap())),
            Ok(Async::NotReady) => Ok(Async::NotReady),
            Err(e) => Err(e),
        }
    }
}

/// Builds a [`ValueState`] that resolves to `value` once `self` is ready.
pub trait Value: Sized {
    fn value<V>(self, value: V) -> (res: ValueState<Self, V>)
        ensures
            res.inner() == self,
            res.held() == Some(value),
    {
        ValueState { future: self, value: Some(value) }
    }
}

impl<F> Value for F {}

} // verus!
