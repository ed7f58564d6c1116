//! A relay for DNS queries that hides the question name behind compression
//! pointers before the query travels upstream.
//!
//! The library holds everything that can be said without touching a socket:
//! how a question name is laid out on the wire ([`wire`]), how it is located
//! and relocated ([`dns`]), why a resolver that follows pointers still reads
//! the same name ([`equivalence`]), and what becomes of each datagram
//! ([`relay`]). The sockets themselves belong to the program around it.

pub mod address;
pub mod config;
pub mod dns;
pub mod equivalence;
pub mod relay;
pub mod wire;

use vstd::prelude::*;

use crate::address::{socket_address, socket_address_text};
use crate::config::Config;
use crate::dns::{rfc1035_fragment_qname, DnsError, QName};
use crate::relay::{next, Event, Exchange};

verus! {

/// The relay: its settings, and every decision it takes on a datagram.
pub struct Resolver {
    config: Config,
}

impl Resolver {
    /// The settings that this relay was made with.
    pub closed spec fn settings(&self) -> Config {
        self.config
    }

    /// A relay that runs with `config`.
    pub fn new(config: Config) -> (resolver: Resolver)
        ensures
            resolver.settings() == config,
    {
        Resolver { config }
    }

    /// The settings that this relay was made with.
    pub fn config(&self) -> (config: &Config)
        ensures
            *config == self.settings(),
    {
        &self.config
    }

    /// The address of the client-facing socket: the configured host and port,
    /// joined by a colon.
    pub fn bind_address(&self) -> (addr: String)
        ensures
            addr@ == socket_address(self.settings().bind@, self.settings().port),
    {
        socket_address_text(&self.config.bind, self.config.port)
    }

    /// Takes a datagram one step further, given what happened outside.
    ///
    /// The step is the one that [`next`] describes, with as many decoys as the
    /// settings ask for.
    pub fn step(&self, exchange: Exchange, event: Event) -> (after: Exchange)
        ensures
            after@ == next(self.settings().dns.level as nat, exchange@, event@),
    {
        match (exchange, event) {
            (Exchange::Received(packet), Event::Proceed) => {
                match QName::from_bytes(packet.as_slice()) {
                    Ok(qname) => Exchange::Decoded(packet, qname),
                    Err(e) => Exchange::Rejected(e),
                }
            },
            (Exchange::Decoded(packet, qname), Event::Proceed) => {
                if !qname.compressed && (qname.start > qname.end || qname.end > packet.len()) {
                    Exchange::Rejected(DnsError::OutOfBounds)
                } else {
                    match rfc1035_fragment_qname(&packet, &qname, self.config.dns.level) {
                        Ok(query) => Exchange::Fragmented(query),
                        Err(e) => Exchange::Rejected(e),
                    }
                }
            },
            (Exchange::Fragmented(_), Event::Sent) => Exchange::SentUpstream,
            (Exchange::Fragmented(_), Event::Failed) => Exchange::Rejected(
                DnsError::UpstreamIOFailure,
            ),
            (Exchange::SentUpstream, Event::Proceed) => Exchange::AwaitingReply,
            (Exchange::AwaitingReply, Event::Reply(bytes)) => Exchange::Relayed(bytes),
            (Exchange::AwaitingReply, Event::Failed) => Exchange::Rejected(
                DnsError::UpstreamIOFailure,
            ),
            (unchanged, _) => unchanged,
        }
    }
}

} // verus!
