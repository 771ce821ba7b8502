//! Per-client request rate limiting.
//!
//! Each client identity owns a window record: the instant its current
//! window opened and the number of requests counted in it. A request
//! with no record, or whose record's window has elapsed, opens a fresh
//! window with count 1 and is allowed. Within an open window, requests
//! are allowed and counted up to the configured maximum; past it they
//! are rejected without touching the record.
//!
//! State is in-memory and process-lifetime only. The caller guards the
//! whole read-check-update step with one lock and supplies `now` from a
//! monotonic clock.

use vstd::prelude::*;

use std::collections::HashMap;

use crate::parse::{COMMA, Ipv4Address, parse_ipv4, spec_parse_ipv4, split_bytes, split_on,
    trim_bytes, trim_spec, views_of_parts};

verus! {

/// A client identity: an IPv4 address and the originating connection's
/// port.
#[derive(Clone, Copy, Debug, PartialEq, Eq, Structural)]
pub struct ClientId {
    pub ip: Ipv4Address,
    pub port: u16,
}

/// The identity a request is accounted under: the first comma-separated
/// entry of the forwarded-address header when it parses as an IPv4
/// address (keeping the connection's port), else the physical peer.
pub open spec fn spec_client_identity(forwarded: Option<Seq<u8>>, peer: ClientId) -> ClientId {
    match forwarded {
        None => peer,
        Some(header) => match spec_parse_ipv4(trim_spec(split_bytes(header, COMMA)[0])) {
            Some(ip) => ClientId { ip, port: peer.port },
            None => peer,
        },
    }
}

/// Derives the client identity of a request from its forwarded-address
/// header (if present) and the physical peer address.
pub fn derive_client_identity(forwarded: Option<&[u8]>, peer: ClientId) -> (client: ClientId)
    ensures
        client == spec_client_identity(
            match forwarded {
                Some(h) => Some(h@),
                None => None,
            },
            peer,
        ),
{
    match forwarded {
        None => peer,
        Some(header) => {
            let entries = split_on(header, COMMA);
            proof {
                assert(split_bytes(header@, COMMA).len() >= 1);
                assert(views_of_parts(entries@)[0] == entries@[0]@);
            }
            let candidate = trim_bytes(entries[0].as_slice());
            match parse_ipv4(candidate.as_slice()) {
                Some(ip) => ClientId { ip, port: peer.port },
                None => peer,
            }
        },
    }
}

/// The rate-limiting state of one client identity.
#[derive(Clone, Copy, Debug, PartialEq, Eq, Structural)]
pub struct ClientRecord {
    /// Instant at which the client's current window opened.
    pub window_start: u64,
    /// Requests counted in the current window, at least 1.
    pub count: u32,
}

/// The table key a client identity maps to: its octets and port packed
/// into 48 bits.
pub open spec fn client_key(c: ClientId) -> u64 {
    ((((c.ip.a * 256 + c.ip.b) * 256 + c.ip.c) * 256 + c.ip.d) * 65536 + c.port) as u64
}

/// Distinct client identities occupy distinct table entries.
pub proof fn lemma_client_key_injective(c1: ClientId, c2: ClientId)
    requires
        client_key(c1) == client_key(c2),
    ensures
        c1 == c2,
{
    let k1 = (((c1.ip.a * 256 + c1.ip.b) * 256 + c1.ip.c) * 256 + c1.ip.d) * 65536 + c1.port;
    let k2 = (((c2.ip.a * 256 + c2.ip.b) * 256 + c2.ip.c) * 256 + c2.ip.d) * 65536 + c2.port;
    assert(0 <= k1 < 0x1000000000000);
    assert(0 <= k2 < 0x1000000000000);
    assert(k1 == k2);
    assert(c1.port == c2.port && c1.ip.d == c2.ip.d && c1.ip.c == c2.ip.c && c1.ip.b == c2.ip.b
        && c1.ip.a == c2.ip.a);
}

fn encode_client_key(c: ClientId) -> (k: u64)
    ensures
        k == client_key(c),
{
    let ip = ((((c.ip.a as u64) * 256 + (c.ip.b as u64)) * 256 + (c.ip.c as u64)) * 256
        + (c.ip.d as u64));
    ip * 65536 + (c.port as u64)
}

/// Is the request allowed, given the client's prior record (if any)?
pub open spec fn allow_decision(
    prior: Option<ClientRecord>,
    now: u64,
    window: u64,
    max_requests: u32,
) -> bool {
    match prior {
        None => true,
        Some(r) => now - r.window_start > window || r.count < max_requests,
    }
}

/// The client's record after the request is handled.
pub open spec fn next_record(
    prior: Option<ClientRecord>,
    now: u64,
    window: u64,
    max_requests: u32,
) -> ClientRecord {
    match prior {
        None => ClientRecord { window_start: now, count: 1 },
        Some(r) => if now - r.window_start > window {
            ClientRecord { window_start: now, count: 1 }
        } else if r.count < max_requests {
            ClientRecord { window_start: r.window_start, count: (r.count + 1) as u32 }
        } else {
            r
        },
    }
}

/// The per-client request counter gating access to the request path.
pub struct RateLimiter {
    window: u64,
    max_requests: u32,
    clients: HashMap<u64, ClientRecord>,
}

impl RateLimiter {
    /// Length of the rate window, in the caller's clock units.
    pub closed spec fn window(self) -> u64 {
        self.window
    }

    /// Requests permitted per window.
    pub closed spec fn max_requests(self) -> u32 {
        self.max_requests
    }

    /// The table of per-client records, keyed by packed client identity.
    pub closed spec fn clients(self) -> Map<u64, ClientRecord> {
        self.clients@
    }

    pub fn new(window: u64, max_requests: u32) -> (limiter: RateLimiter)
        ensures
            limiter.window() == window,
            limiter.max_requests() == max_requests,
            limiter.clients() == Map::<u64, ClientRecord>::empty(),
    {
        RateLimiter { window, max_requests, clients: HashMap::new() }
    }

    /// Handles one request from `client` at instant `now`: allows and
    /// counts it, opening or resetting the client's window as the state
    /// machine prescribes, or rejects it leaving the record untouched.
    /// Records of all other client identities are unaffected.
    pub fn check(&mut self, client: ClientId, now: u64) -> (allowed: bool)
        ensures
            ({
                let k = client_key(client);
                let prior = if old(self).clients().contains_key(k) {
                    Some(old(self).clients()[k])
                } else {
                    None
                };
                &&& allowed == allow_decision(
                    prior,
                    now,
                    old(self).window(),
                    old(self).max_requests(),
                )
                &&& final(self).clients() == old(self).clients().insert(
                    k,
                    next_record(prior, now, old(self).window(), old(self).max_requests()),
                )
            }),
            forall|other: u64|
                other != client_key(client) && old(self).clients().contains_key(other)
                    ==> final(self).clients().contains_key(other) && final(self).clients()[other]
                    == old(self).clients()[other],
            final(self).window() == old(self).window(),
            final(self).max_requests() == old(self).max_requests(),
    {
        broadcast use vstd::std_specs::hash::group_hash_axioms;

        let k = encode_client_key(client);
        let prior: Option<ClientRecord> = match self.clients.get(&k) {
            Some(r) => Some(*r),
            None => None,
        };
        match prior {
            None => {
                self.clients.insert(k, ClientRecord { window_start: now, count: 1 });
                true
            },
            Some(r) => {
                if now >= r.window_start && now - r.window_start > self.window {
                    self.clients.insert(k, ClientRecord { window_start: now, count: 1 });
                    true
                } else if r.count < self.max_requests {
                    self.clients.insert(
                        k,
                        ClientRecord { window_start: r.window_start, count: r.count + 1 },
                    );
                    true
                } else {
                    proof {
                        assert(self.clients@ =~= old(self).clients@.insert(k, r));
                    }
                    false
                }
            },
        }
    }
}

} // verus!
