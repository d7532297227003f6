//! The three hand-off queues between the ingress manager and the client.
//!
//! Each is a heapless single-producer/single-consumer queue split into a
//! producer half and a consumer half, one half per execution context. The
//! client holds the consuming half of the response and URC queues and the
//! producing half of the signal queue; the ingress manager holds the others.
//! What the other context does between two calls is unknown here, so the
//! calls below promise only what holds of every outcome.
use vstd::prelude::*;
use crate::error::InternalError;

verus! {

/// A framed response, or the error met while framing it.
pub type ResItem = Result<Vec<u8>, InternalError>;

/// A signal from the client to the ingress manager.
#[derive(Debug, Clone, Copy, PartialEq, Eq, Structural)]
pub enum Command {
    /// Discard any partially framed input and return to the initial state.
    Reset,
    /// Go straight to awaiting response bytes, without echo suppression.
    ForceReceiveState,
}

/// The most responses the response queue holds.
pub const RES_CAPACITY: usize = 5;

/// The most URCs the URC queue holds.
pub const URC_CAPACITY: usize = 10;

/// The response queue: room for 5 responses.
pub type ResQueue = heapless::spsc::Queue<ResItem, 6>;

/// The URC queue: room for 10 URCs.
pub type UrcQueue = heapless::spsc::Queue<Vec<u8>, 11>;

/// The signal queue: room for 3 signals.
pub type ComQueue = heapless::spsc::Queue<Command, 4>;

/// The client's half of the response queue.
pub type ResConsumer<'a> = heapless::spsc::Consumer<'a, ResItem, 6>;

/// The client's half of the URC queue.
pub type UrcConsumer<'a> = heapless::spsc::Consumer<'a, Vec<u8>, 11>;

/// The client's half of the signal queue.
pub type ComProducer<'a> = heapless::spsc::Producer<'a, Command, 4>;

#[verifier::external_type_specification]
#[verifier::external_body]
#[verifier::reject_recursive_types(T)]
pub struct ExSpscConsumer<'a, T, const N: usize>(heapless::spsc::Consumer<'a, T, N>);

#[verifier::external_type_specification]
#[verifier::external_body]
#[verifier::reject_recursive_types(T)]
pub struct ExSpscProducer<'a, T, const N: usize>(heapless::spsc::Producer<'a, T, N>);

/// How many responses have been taken through this half.
pub uninterp spec fn res_taken(c: ResConsumer<'_>) -> nat;

/// Whether the latest poll through this half found the response queue empty.
pub uninterp spec fn res_seen_empty(c: ResConsumer<'_>) -> bool;

/// How many URCs have been taken through this half.
pub uninterp spec fn urc_taken(c: UrcConsumer<'_>) -> nat;

/// Whether the latest poll through this half found the URC queue empty.
pub uninterp spec fn urc_seen_empty(c: UrcConsumer<'_>) -> bool;

/// The URC that this half has seen at the head of the queue, if any; only
/// this half removes it, so it stays there until the next dequeue.
pub uninterp spec fn urc_front(c: UrcConsumer<'_>) -> Option<Seq<u8>>;

/// Relies on heapless::spsc::Consumer::dequeue: the oldest response, or `None`
/// when none is ready. Which one depends on the producer's context.
#[verifier::external_body]
pub(crate) fn res_dequeue(c: &mut ResConsumer<'_>) -> (r: Option<ResItem>)
    ensures
        r is Some ==> res_taken(*final(c)) == res_taken(*old(c)) + 1 && !res_seen_empty(*final(c)),
        r is None ==> res_taken(*final(c)) == res_taken(*old(c)) && res_seen_empty(*final(c)),
{
    c.dequeue()
}

/// Relies on heapless::spsc::Consumer::peek: a copy of the oldest URC, left in
/// the queue, or `None` when none is ready.
#[verifier::external_body]
pub(crate) fn urc_peek(c: &mut UrcConsumer<'_>) -> (r: Option<Vec<u8>>)
    ensures
        urc_taken(*final(c)) == urc_taken(*old(c)),
        r is Some ==> !urc_seen_empty(*final(c)) && urc_front(*final(c)) == Some(r.unwrap()@),
        r is None ==> urc_seen_empty(*final(c)),
{
    c.peek().cloned()
}

/// Relies on heapless::spsc::Consumer::dequeue: the oldest URC, or `None` when
/// none is ready; after a peek that saw one, that one.
#[verifier::external_body]
pub(crate) fn urc_dequeue(c: &mut UrcConsumer<'_>) -> (r: Option<Vec<u8>>)
    ensures
        urc_front(*old(c)) is Some ==> r is Some && r.unwrap()@ == urc_front(*old(c)).unwrap(),
        r is Some ==> urc_taken(*final(c)) == urc_taken(*old(c)) + 1 && !urc_seen_empty(*final(c)),
        r is None ==> urc_taken(*final(c)) == urc_taken(*old(c)) && urc_seen_empty(*final(c)),
{
    c.dequeue()
}

/// Relies on heapless::spsc::Producer::enqueue: the signal is queued, or handed
/// back when the queue is full.
#[verifier::external_body]
pub(crate) fn com_enqueue(p: &mut ComProducer<'_>, v: Command) -> (r: Option<Command>)
    ensures
        r is None || r == Some(v),
{
    p.enqueue(v).err()
}

} // verus!
