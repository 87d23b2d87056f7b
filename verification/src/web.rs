//! Request-side decisions of the serving layer: which address a request is
//! attributed to, how a response's content length feeds the byte counter,
//! and the status a rejected request is re-wrapped with so the
//! cross-origin headers still apply. The HTTP machinery around these
//! hands in plain values and performs the replies.

use vstd::prelude::*;
use crate::presence::{sat_add, ByteCounter, PresenceTracker};
use crate::text::{all_digits, digits_val, parse_digits, str_to_chars};

verus! {

/// The identity a request is attributed to: the proxy-forwarded address
/// when one is present, else the transport peer address, else nothing.
pub open spec fn client_identity(forwarded: Option<u128>, peer: Option<u128>) -> Option<u128> {
    if forwarded is Some {
        forwarded
    } else {
        peer
    }
}

/// Picks the identity for one request.
pub fn resolve_client_identity(forwarded: Option<u128>, peer: Option<u128>) -> (r: Option<u128>)
    ensures
        r == client_identity(forwarded, peer),
{
    match forwarded {
        Some(ip) => Some(ip),
        None => peer,
    }
}

/// The byte count a content-length header denotes: one or more decimal
/// digits that fit in `u64`; anything else counts nothing.
pub open spec fn content_length_of(h: Seq<char>) -> Option<u64> {
    if h.len() >= 1 && all_digits(h) && digits_val(h) <= u64::MAX {
        Some(digits_val(h) as u64)
    } else {
        None
    }
}

/// Reads a content-length header value.
pub fn parse_content_length(h: &str) -> (r: Option<u64>)
    ensures
        r == content_length_of(h@),
{
    let v = str_to_chars(h);
    let n: usize = v.len();
    if n == 0 {
        return None;
    }
    assert(v@.subrange(0, n as int) == v@);
    parse_digits(&v, 0, n)
}

/// The bytes one response adds to the counter: its content length when
/// the header is a readable number, nothing otherwise.
pub open spec fn counted_bytes(content_length: Option<&str>) -> u64 {
    match content_length {
        Some(h) => match content_length_of(h@) {
            Some(b) => b,
            None => 0,
        },
        None => 0,
    }
}

/// One request's bookkeeping: attributes the request to an identity,
/// refreshes that identity's presence (reporting a join on first sight),
/// and accumulates the response's size. A request with no resolvable
/// identity still has its bytes counted.
pub fn record_request(
    tracker: &mut PresenceTracker,
    counter: &mut ByteCounter,
    forwarded: Option<u128>,
    peer: Option<u128>,
    content_length: Option<&str>,
    now: u64,
) -> (r: Option<(u128, bool)>)
    requires
        old(tracker).wf(),
    ensures
        final(tracker).wf(),
        match client_identity(forwarded, peer) {
            Some(id) => r matches Some((rid, joined)) && rid == id && joined == !old(
                tracker,
            )@.dom().contains(id) && final(tracker)@ == old(tracker)@.insert(id, now),
            None => r is None && final(tracker)@ == old(tracker)@,
        },
        final(counter).current == sat_add(old(counter).current, counted_bytes(content_length)),
        final(counter).max_per_interval == old(counter).max_per_interval,
{
    let bytes: u64 = match content_length {
        Some(h) => match parse_content_length(h) {
            Some(b) => b,
            None => 0,
        },
        None => 0,
    };
    counter.add(bytes);
    match resolve_client_identity(forwarded, peer) {
        Some(id) => {
            let joined = tracker.note_seen(id, now);
            Some((id, joined))
        },
        None => None,
    }
}

/// The status a rejected request is re-wrapped with, as a successful
/// reply, so the permissive cross-origin headers are applied to it too:
/// not-found stays a 404, everything else becomes a 500.
pub fn rejection_status(is_not_found: bool) -> (code: u16)
    ensures
        code == (if is_not_found {
            404u16
        } else {
            500u16
        }),
{
    if is_not_found {
        404
    } else {
        500
    }
}

} // verus!
