use vstd::prelude::*;

verus! {

/// The readiness of a value: either it is available now, or it is not yet.
#[derive(Debug, Clone, Copy, PartialEq, Eq)]
pub enum Async<T> {
    /// The value is available.
    Ready(T),
    /// The value is not available yet; the source will wake its task later.
    NotReady,
}

/// `upstream` brings a new item.
pub open spec fn brings_item<T, E>(upstream: Result<Async<Option<T>>, E>) -> bool {
    upstream matches Ok(Async::Ready(Some(_)))
}

/// What a poll result `r` of one upstream source of a two-source combinator does to
/// the latest item `q` and the end flag `d` kept for that source (becoming `q2` and
/// `d2`): a new item replaces the latest one, end-of-stream sets the flag, and an
/// error leaves both as they were and is handed back. `res` tells whether a new item
/// arrived.
pub open spec fn absorbed<T, E>(
    r: Result<Async<Option<T>>, E>,
    q: Option<T>,
    d: bool,
    q2: Option<T>,
    d2: bool,
    res: Result<bool, E>,
) -> bool {
    match r {
        Ok(Async::Ready(Some(x))) => q2 == Some(x) && d2 == d && res == Ok::<bool, E>(true),
        Ok(Async::Ready(None)) => q2 == q && d2 && res == Ok::<bool, E>(false),
        Ok(Async::NotReady) => q2 == q && d2 == d && res == Ok::<bool, E>(false),
        Err(e) => q2 == q && d2 == d && res == Err::<bool, E>(e),
    }
}

/// Records one upstream poll result into the latest item and end flag of that source.
pub(crate) fn absorb<T, E>(r: Result<Async<Option<T>>, E>, queued: &mut Option<T>, done: &mut bool) -> (res: Result<bool, E>)
    ensures
        absorbed(r, *old(queued), *old(done), *final(queued), *final(done), res),
{
    match r {
        Ok(Async::Ready(Some(x))) => {
            *queued = Some(x);
            Ok(true)
        }
        Ok(Async::Ready(None)) => {
            *done = true;
            Ok(false)
        }
        Ok(Async::NotReady) => Ok(false),
        Err(e) => Err(e),
    }
}

} // verus!
