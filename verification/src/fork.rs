use futures::sync::mpsc::{UnboundedReceiver, UnboundedSender};
use vstd::prelude::*;
use crate::poll::Async;

verus! {

#[verifier::external_type_specification]
#[verifier::external_body]
#[verifier::reject_recursive_types(T)]
pub struct ExUnboundedSender<T>(UnboundedSender<T>);

#[verifier::external_type_specification]
#[verifier::external_body]
#[verifier::reject_recursive_types(T)]
pub struct ExUnboundedReceiver<T>(UnboundedReceiver<T>);

/// The sending half of the fork's channel, with two records: every message offered
/// to the channel through it, and those of them that were queued.
#[verifier::reject_recursive_types(T)]
pub struct ForkSender<T> {
    tx: UnboundedSender<T>,
    offered: Ghost<Seq<T>>,
    log: Ghost<Seq<T>>,
}

impl<T> ForkSender<T> {
    /// The messages offered to the channel through this sender, oldest first.
    pub closed spec fn offered(&self) -> Seq<T> {
        self.offered@
    }

    /// The messages queued on the channel through this sender, oldest first.
    pub closed spec fn log(&self) -> Seq<T> {
        self.log@
    }
}

/// Calls `futures::sync::mpsc::unbounded`, which makes a new channel with no bound on
/// its buffer and returns its sending and receiving halves; nothing has been offered
/// to it yet.
#[verifier::external_body]
fn unbounded_channel<T>() -> (res: (ForkSender<T>, UnboundedReceiver<T>))
    ensures
        res.0.offered() == Seq::<T>::empty(),
        res.0.log() == Seq::<T>::empty(),
{
    let (tx, rx) = futures::sync::mpsc::unbounded();
    (ForkSender { tx: tx, offered: Ghost(Seq::empty()), log: Ghost(Seq::empty()) }, rx)
}

/// Calls `UnboundedSender::unbounded_send` with `msg`, on every call: the message is
/// offered to the channel, which queues it, or, when the receiving half is gone,
/// queues nothing and hands the very message back (`SendError::into_inner`). So the
/// record of offered messages grows by `msg` on every call, and the record of queued
/// messages grows by `msg` exactly when the send succeeds. Whether it succeeds depends
/// on the receiving half, which is not claimed.
#[verifier::external_body]
fn send_unbounded<T>(tx: &mut ForkSender<T>, msg: T) -> (res: Result<(), T>)
    ensures
        final(tx).offered() == old(tx).offered().push(msg),
        match res {
            Ok(()) => final(tx).log() == old(tx).log().push(msg),
            Err(m) => m == msg && final(tx).log() == old(tx).log(),
        },
{
    match tx.tx.unbounded_send(msg) {
        Ok(()) => Ok(()),
        Err(e) => Err(e.into_inner()),
    }
}

/// The forked copy of an item could not be delivered because the receiving half of
/// the fork was dropped: a forked stream must be kept and polled.
#[derive(Debug, Clone, Copy, PartialEq, Eq)]
pub struct ForkReceiverDropped;

/// What [`after_send`] returns.
pub open spec fn after_send_outcome<T, E>(item: T, sent: Result<(), T>) -> Result<Result<Async<Option<T>>, E>, ForkReceiverDropped> {
    match sent {
        Ok(()) => Ok(Ok(Async::Ready(Some(item)))),
        Err(_) => Err(ForkReceiverDropped),
    }
}

/// What a poll returns once the clone of `item` was handed to the forked receiver's
/// channel with outcome `sent`: the item passed on unchanged, or, when the channel
/// refused it, `ForkReceiverDropped`.
pub fn after_send<T, E>(item: T, sent: Result<(), T>) -> (res: Result<Result<Async<Option<T>>, E>, ForkReceiverDropped>)
    ensures
        res == after_send_outcome::<T, E>(item, sent),
        sent is Ok ==> res == Ok::<Result<Async<Option<T>>, E>, ForkReceiverDropped>(Ok(Async::Ready(Some(item)))),
        sent is Err ==> res == Err::<Result<Async<Option<T>>, E>, ForkReceiverDropped>(ForkReceiverDropped),
{
    match sent {
        Ok(()) => Ok(Ok(Async::Ready(Some(item)))),
        Err(_) => Err(ForkReceiverDropped),
    }
}

/// A stream combinator that passes its items on unchanged and sends a clone of each
/// item to a second, forked receiver.
#[verifier::reject_recursive_types(T)]
pub struct ForkState<S, T> {
    /// The upstream source; polling it is up to the owner of this state.
    pub stream: S,
    tx: ForkSender<T>,
}

impl<S, T> ForkState<S, T> {
    /// The upstream source.
    pub closed spec fn upstream(&self) -> S {
        self.stream
    }

    /// The copies offered to the forked receiver's channel so far, oldest first.
    pub closed spec fn offered(&self) -> Seq<T> {
        self.tx.offered()
    }

    /// The copies queued on the forked receiver's channel so far, oldest first.
    pub closed spec fn sent(&self) -> Seq<T> {
        self.tx.log()
    }

    /// Feeds the result of polling the upstream source. Exactly one clone of a new
    /// item is offered to the forked receiver's channel, and the poll finishes as
    /// [`after_send`] says: the item is passed on unchanged and the clone is queued,
    /// or, when that receiver is gone, nothing is queued and `ForkReceiverDropped` is
    /// returned instead. End-of-stream, "not ready" and errors pass through unchanged
    /// and offer nothing.
    pub fn poll<E>(&mut self, upstream: Result<Async<Option<T>>, E>) -> (res: Result<Result<Async<Option<T>>, E>, ForkReceiverDropped>)
        where T: Clone
        ensures
            final(self).upstream() == old(self).upstream(),
            match upstream {
                Ok(Async::Ready(Some(i))) => exists|copy: T, sent: Result<(), T>|
                    #![trigger cloned(i, copy), after_send_outcome::<T, E>(i, sent)]
                    cloned(i, copy) && res == after_send_outcome::<T, E>(i, sent)
                    && final(self).offered() == old(self).offered().push(copy)
                    && match sent {
                        Ok(()) => final(self).sent() == old(self).sent().push(copy),
                        Err(m) => m == copy && final(self).sent() == old(self).sent(),
                    },
                _ => res == Ok::<Result<Async<Option<T>>, E>, ForkReceiverDropped>(upstream)
                    && final(self).offered() == old(self).offered()
                    && final(self).sent() == old(self).sent(),
            },
            upstream matches Ok(Async::Ready(Some(i))) ==> {
                &&& final(self).offered().len() == old(self).offered().len() + 1
                &&& cloned(i, final(self).offered().last())
                &&& final(self).sent().len() > old(self).sent().len()
                    ==> res == Ok::<Result<Async<Option<T>>, E>, ForkReceiverDropped>(Ok(Async::Ready(Some(i))))
                        && final(self).sent() == old(self).sent().push(final(self).offered().last())
                &&& final(self).sent() == old(self).sent()
                    ==> res == Err::<Result<Async<Option<T>>, E>, ForkReceiverDropped>(ForkReceiverDropped)
            },
    {
        match upstream {
            Ok(Async::Ready(Some(i))) => {
                let copy = i.clone();
                let ghost c = copy;
                let sent = send_unbounded(&mut self.tx, copy);
                let ghost s = sent;
                let res = after_send(i, sent);
                assert(cloned(i, c) && res == after_send_outcome::<T, E>(i, s));
                res
            }
            other => Ok(other),
        }
    }
}

/// Splits a source in two: a [`ForkState`] that passes the items on, and the
/// receiving half of the channel to which it sends a clone of each of them.
pub trait Fork: Sized {
    fn fork<T>(self) -> (res: (ForkState<Self, T>, UnboundedReceiver<T>))
        ensures
            res.0.upstream() == self,
            res.0.offered() == Seq::<T>::empty(),
            res.0.sent() == Seq::<T>::empty(),
    {
        let (tx, rx) = unbounded_channel();
        (ForkState { stream: self, tx: tx }, rx)
    }
}

impl<S> Fork for S {}

/// A fork passes an item on exactly when its copy was queued: for every item type,
/// the poll's result after handing the copy to the channel is the item itself when
/// the channel took it, and `ForkReceiverDropped` when it refused it.
pub proof fn lemma_fork_passes_item_exactly_when_queued<T, E>(item: T, refused: T)
    ensures
        after_send_outcome::<T, E>(item, Ok(())) == Ok::<Result<Async<Option<T>>, E>, ForkReceiverDropped>(Ok(Async::Ready(Some(item)))),
        after_send_outcome::<T, E>(item, Err(refused)) == Err::<Result<Async<Option<T>>, E>, ForkReceiverDropped>(ForkReceiverDropped),
{
}

} // verus!
