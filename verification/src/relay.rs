//! The life of one client datagram, as a machine that never touches a socket.
//!
//! The caller owns the sockets. It hands the machine what happened outside
//! and reads from the state it gets back what to do next:
//!
//! * `Received`, `Decoded`, `SentUpstream`: nothing outside, step on;
//! * `Fragmented`: send the query upstream, then report `Sent` or `Failed`;
//! * `AwaitingReply`: wait for one datagram, then report `Reply` or `Failed`;
//! * `Relayed`: hand the reply to the client; `Rejected`: record the failure
//!   and send the client nothing. Both are final.

use vstd::prelude::*;

use crate::dns::{DnsError, QName};
use crate::equivalence::{resolved_name, theorem_fragment_keeps_name};
use crate::wire::{decode, fragment, lemma_decoded, QNameView, HEADER_LEN};

verus! {

/// Where a datagram stands, with what the next step needs.
#[derive(Debug)]
pub enum Exchange {
    /// The client's datagram, as it arrived.
    Received(Vec<u8>),
    /// The datagram and the question name found in it.
    Decoded(Vec<u8>, QName),
    /// The rewritten query, ready to leave.
    Fragmented(Vec<u8>),
    /// The query has been sent upstream.
    SentUpstream,
    /// Upstream's one reply is being waited for.
    AwaitingReply,
    /// Upstream's reply, to be handed to the client as it is.
    Relayed(Vec<u8>),
    /// The datagram was given up; the client hears nothing.
    Rejected(DnsError),
}

/// What happened outside since the last step.
#[derive(Debug)]
pub enum Event {
    /// Nothing: the next step is the relay's own.
    Proceed,
    /// The query was sent upstream.
    Sent,
    /// Upstream answered with these bytes.
    Reply(Vec<u8>),
    /// Opening the upstream socket, sending or receiving failed.
    Failed,
}

/// The model of an [`Exchange`].
pub enum ExchangeView {
    Received(Seq<u8>),
    Decoded(Seq<u8>, QNameView),
    Fragmented(Seq<u8>),
    SentUpstream,
    AwaitingReply,
    Relayed(Seq<u8>),
    Rejected(DnsError),
}

/// The model of an [`Event`].
pub enum EventView {
    Proceed,
    Sent,
    Reply(Seq<u8>),
    Failed,
}

impl View for Exchange {
    type V = ExchangeView;

    open spec fn view(&self) -> ExchangeView {
        match self {
            Exchange::Received(packet) => ExchangeView::Received(packet@),
            Exchange::Decoded(packet, qname) => ExchangeView::Decoded(packet@, qname@),
            Exchange::Fragmented(query) => ExchangeView::Fragmented(query@),
            Exchange::SentUpstream => ExchangeView::SentUpstream,
            Exchange::AwaitingReply => ExchangeView::AwaitingReply,
            Exchange::Relayed(reply) => ExchangeView::Relayed(reply@),
            Exchange::Rejected(error) => ExchangeView::Rejected(*error),
        }
    }
}

impl View for Event {
    type V = EventView;

    open spec fn view(&self) -> EventView {
        match self {
            Event::Proceed => EventView::Proceed,
            Event::Sent => EventView::Sent,
            Event::Reply(bytes) => EventView::Reply(bytes@),
            Event::Failed => EventView::Failed,
        }
    }
}

/// The state that follows `state` when `event` is reported, for a relay that
/// adds `jumps` decoys.
///
/// A datagram is decoded, then fragmented, then sent, then its reply awaited
/// and relayed unchanged. Whatever fails on the way leads to `Rejected`; so
/// does a descriptor that names bytes outside its message. An event that the
/// state does not wait for changes nothing.
pub open spec fn next(jumps: nat, state: ExchangeView, event: EventView) -> ExchangeView {
    match (state, event) {
        (ExchangeView::Received(packet), EventView::Proceed) => match decode(packet) {
            Ok(name) => ExchangeView::Decoded(packet, name),
            Err(e) => ExchangeView::Rejected(e),
        },
        (ExchangeView::Decoded(packet, name), EventView::Proceed) => if !name.compressed
            && !name.lies_within(packet.len()) {
            ExchangeView::Rejected(DnsError::OutOfBounds)
        } else {
            match fragment(packet, name, jumps) {
                Ok(query) => ExchangeView::Fragmented(query),
                Err(e) => ExchangeView::Rejected(e),
            }
        },
        (ExchangeView::Fragmented(_), EventView::Sent) => ExchangeView::SentUpstream,
        (ExchangeView::Fragmented(_), EventView::Failed) => ExchangeView::Rejected(
            DnsError::UpstreamIOFailure,
        ),
        (ExchangeView::SentUpstream, EventView::Proceed) => ExchangeView::AwaitingReply,
        (ExchangeView::AwaitingReply, EventView::Reply(bytes)) => ExchangeView::Relayed(bytes),
        (ExchangeView::AwaitingReply, EventView::Failed) => ExchangeView::Rejected(
            DnsError::UpstreamIOFailure,
        ),
        (unchanged, _) => unchanged,
    }
}

/// `Relayed` and `Rejected` are final: no event leads out of them.
pub proof fn lemma_final_states(jumps: nat, state: ExchangeView, event: EventView)
    requires
        state is Relayed || state is Rejected,
    ensures
        next(jumps, state, event) == state,
{
}

/// The client is only ever handed what upstream sent: a step arrives at
/// `Relayed` solely from `AwaitingReply`, on a reply, and with that reply's
/// bytes.
pub proof fn lemma_reply_unmodified(jumps: nat, state: ExchangeView, event: EventView)
    requires
        next(jumps, state, event) is Relayed,
        !(state is Relayed),
    ensures
        state is AwaitingReply,
        event == EventView::Reply(next(jumps, state, event)->Relayed_0),
{
}

/// A step gives a datagram up only while it is decoded, fragmented or sent, or
/// while its reply is awaited; and a failure reported from outside always
/// counts as an upstream failure.
pub proof fn lemma_rejection(jumps: nat, state: ExchangeView, event: EventView)
    requires
        next(jumps, state, event) is Rejected,
        !(state is Rejected),
    ensures
        state is Received || state is Decoded || state is Fragmented || state is AwaitingReply,
        state is Received || state is Decoded <==> event is Proceed,
        state is Fragmented || state is AwaitingReply <==> event is Failed,
        event is Failed ==> next(jumps, state, event) == ExchangeView::Rejected(
            DnsError::UpstreamIOFailure,
        ),
{
}

/// What leaves for upstream is the fragmented form of what the client sent,
/// and it still spells the client's name. If two steps lead from a received
/// datagram to a query, then the datagram decoded to an uncompressed name, the
/// query is its fragmentation, and a reader that follows pointers finds that
/// name in the query.
pub proof fn lemma_query_keeps_name(jumps: nat, packet: Seq<u8>, hops: nat)
    requires
        next(
            jumps,
            next(jumps, ExchangeView::Received(packet), EventView::Proceed),
            EventView::Proceed,
        ) is Fragmented,
        hops >= 1,
    ensures
        ({
            let query = next(
                jumps,
                next(jumps, ExchangeView::Received(packet), EventView::Proceed),
                EventView::Proceed,
            )->Fragmented_0;
            decode(packet) matches Ok(name) && fragment(packet, name, jumps) == Ok::<
                Seq<u8>,
                DnsError,
            >(query) && resolved_name(query, HEADER_LEN as int, hops) == Some(name.name)
        }),
{
    lemma_decoded(packet);
    theorem_fragment_keeps_name(packet, jumps, hops);
}

/// On the way from a received datagram the descriptor always lies inside the
/// message: only decoding or fragmenting can fail there, each with its own
/// error.
pub proof fn lemma_decoded_is_fragmented(jumps: nat, packet: Seq<u8>)
    requires
        decode(packet) is Ok,
    ensures
        ({
            let decoded = next(jumps, ExchangeView::Received(packet), EventView::Proceed);
            &&& decoded == ExchangeView::Decoded(packet, decode(packet)->Ok_0)
            &&& next(jumps, decoded, EventView::Proceed) == match fragment(
                packet,
                decode(packet)->Ok_0,
                jumps,
            ) {
                Ok(query) => ExchangeView::Fragmented(query),
                Err(e) => ExchangeView::Rejected(e),
            }
        }),
{
    lemma_decoded(packet);
}

} // verus!
