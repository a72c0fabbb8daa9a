//! Choosing the client's address among what a request offers: the walk
//! over its forwarding header, the address that the HTTP layer vouches for,
//! and the transport peer.

use vstd::prelude::*;
use crate::address::Address;
use crate::chain::{
    chain_result, chain_tokens, lemma_chain_absent, resolve_from_chain, token_address,
};
use crate::classifier::{address_is_local, is_local};
use crate::parse::{address_of_text, parse_address, parse_address_span};
use crate::text::{chars_of, first_field_span, trim_span, Span};

verus! {

/// The text of a header that may be absent.
pub open spec fn header_text(header: Option<&str>) -> Option<Seq<char>> {
    match header {
        Some(h) => Some(h@),
        None => None,
    }
}

/// What the forwarding header yields, if the request has one.
pub open spec fn walked(header: Option<Seq<char>>) -> Option<Address> {
    match header {
        Some(h) => chain_result(h),
        None => None,
    }
}

/// The client's address. What the walk over the forwarding header yields
/// comes first; then the address that the HTTP layer vouches for; then the
/// transport peer, local or not.
pub open spec fn resolved(
    peer: Option<Address>,
    header: Option<Seq<char>>,
    real_ip: Option<Address>,
) -> Option<Address> {
    if walked(header) is Some {
        walked(header)
    } else if real_ip is Some {
        real_ip
    } else {
        peer
    }
}

/// Computes [`resolved`]. The result is absent only if the header yields
/// nothing and neither of the two addresses is known; absence is an answer,
/// not a failure.
pub fn resolve(peer: Option<Address>, forwarded_for: Option<&str>, real_ip: Option<Address>) -> (r:
    Option<Address>)
    ensures
        r == resolved(peer, header_text(forwarded_for), real_ip),
{
    let remote_fallback = peer;
    match forwarded_for {
        Some(header) => {
            let found = resolve_from_chain(header);
            if found.is_some() {
                return found;
            }
        },
        None => {},
    }
    if real_ip.is_some() {
        return real_ip;
    }
    remote_fallback
}

/// Resolving the same peer, header and vouched address twice gives the same
/// answer: nothing else enters the decision.
pub proof fn lemma_resolution_stable(
    peer: Option<Address>,
    header: Option<Seq<char>>,
    real_ip: Option<Address>,
    first: Option<Address>,
    second: Option<Address>,
)
    requires
        first == resolved(peer, header, real_ip),
        second == resolved(peer, header, real_ip),
    ensures
        first == second,
{
}

/// No address can be determined exactly when the peer and the vouched
/// address are unknown and the forwarding header is missing or its last
/// entry writes no address.
pub proof fn lemma_resolution_absent(
    peer: Option<Address>,
    header: Option<Seq<char>>,
    real_ip: Option<Address>,
)
    ensures
        resolved(peer, header, real_ip) is None <==> {
            &&& peer is None
            &&& real_ip is None
            &&& (header is Some ==> token_address(chain_tokens(header->0).last()) is None)
        },
{
    if header is Some {
        lemma_chain_absent(header->0);
    }
}

/// Without a forwarding header and a vouched address the peer is the
/// answer, whether it is local or not: locality bears on the walk over the
/// header only.
pub proof fn lemma_peer_is_last_resort(peer: Option<Address>)
    ensures
        resolved(peer, None, None) == peer,
{
}

/// The client's address for a server whose HTTP layer is trusted first:
/// the address it vouches for; else what the first entry of the forwarding
/// header writes; else the transport peer.
pub open spec fn resolved_real(
    peer: Option<Address>,
    header: Option<Seq<char>>,
    real_ip: Option<Address>,
) -> Option<Address> {
    if real_ip is Some {
        real_ip
    } else if header is Some && token_address(chain_tokens(header->0)[0]) is Some {
        token_address(chain_tokens(header->0)[0])
    } else {
        peer
    }
}

/// Computes [`resolved_real`].
pub fn resolve_real(peer: Option<Address>, forwarded_for: Option<&str>, real_ip: Option<Address>) -> (r:
    Option<Address>)
    ensures
        r == resolved_real(peer, header_text(forwarded_for), real_ip),
{
    if real_ip.is_some() {
        return real_ip;
    }
    match forwarded_for {
        Some(header) => {
            let s = chars_of(header);
            let whole = Span { start: 0, end: s.len() };
            assert(whole.of(s@) =~= header@);
            let first = first_field_span(&s, whole, ',');
            let token = trim_span(&s, first);
            let found = parse_address_span(&s, token);
            if found.is_some() {
                return found;
            }
        },
        None => {},
    }
    peer
}

/// The client's address behind a single proxy that names the client in a
/// header of its own. A peer that is not local is the client. Else the
/// header that names the client decides alone, whether it writes an address
/// or not; without it the forwarding header, read as one address, does;
/// without both, the peer is returned.
pub open spec fn resolved_by_headers(
    peer: Option<Address>,
    real_ip_header: Option<Seq<char>>,
    forwarded_header: Option<Seq<char>>,
) -> Option<Address> {
    if peer is Some && !address_is_local(peer->0) {
        peer
    } else if real_ip_header is Some {
        address_of_text(real_ip_header->0)
    } else if forwarded_header is Some {
        address_of_text(forwarded_header->0)
    } else {
        peer
    }
}

/// Computes [`resolved_by_headers`].
pub fn resolve_by_headers(
    peer: Option<Address>,
    real_ip_header: Option<&str>,
    forwarded_header: Option<&str>,
) -> (r: Option<Address>)
    ensures
        r == resolved_by_headers(peer, header_text(real_ip_header), header_text(forwarded_header)),
{
    match peer {
        Some(a) => {
            if !is_local(&a) {
                return peer;
            }
        },
        None => {},
    }
    match real_ip_header {
        Some(text) => parse_address(text),
        None => match forwarded_header {
            Some(text) => parse_address(text),
            None => peer,
        },
    }
}

} // verus!
