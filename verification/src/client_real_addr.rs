//! The client's address for a server that trusts its HTTP layer first.

use vstd::prelude::*;
use crate::address::{Address, Ipv4Address, Ipv6Address};
use crate::format::{address_text, ipv4_text, ipv6_text};
use crate::resolver::{header_text, resolve_real, resolved_real};

verus! {

/// The address of the client that sent a request, as the HTTP layer or the
/// first entry of the forwarding header names it.
#[derive(Clone, Copy, Debug, PartialEq, Eq, Structural, PartialOrd, Ord, Hash)]
pub struct ClientRealAddr {
    /// IP address from a client.
    pub ip: Address,
}

/// The client with the given address, if there is an address.
pub open spec fn real_client_of(ip: Option<Address>) -> Option<ClientRealAddr> {
    match ip {
        Some(ip) => Some(ClientRealAddr { ip }),
        None => None,
    }
}

impl ClientRealAddr {
    /// The client of a request with the given transport peer, first
    /// forwarding header and address vouched for by the HTTP layer; see
    /// [`resolved_real`]. `None` says that the request shows no address.
    pub fn from_parts(
        remote: Option<Address>,
        forwarded_for: Option<&str>,
        real_ip: Option<Address>,
    ) -> (r: Option<ClientRealAddr>)
        ensures
            r == real_client_of(resolved_real(remote, header_text(forwarded_for), real_ip)),
    {
        match resolve_real(remote, forwarded_for, real_ip) {
            Some(ip) => Some(ClientRealAddr { ip }),
            None => None,
        }
    }

    /// Get an IPv4 address: the client's own, or the one that its IPv6
    /// address carries.
    pub fn get_ipv4(&self) -> (r: Option<Ipv4Address>)
        ensures
            r == self.ip.ipv4(),
    {
        self.ip.to_ipv4()
    }

    /// Get an IPv4 string.
    pub fn get_ipv4_string(&self) -> (r: Option<String>)
        ensures
            match r {
                Some(s) => self.ip.ipv4() is Some && s@ == ipv4_text(self.ip.ipv4()->0),
                None => self.ip.ipv4() is None,
            },
    {
        match self.ip.to_ipv4() {
            Some(a) => Some(a.to_text()),
            None => None,
        }
    }

    /// Get an IPv6 address: the client's own, or its IPv4 address mapped
    /// into IPv6.
    pub fn get_ipv6(&self) -> (r: Ipv6Address)
        ensures
            r == self.ip.ipv6(),
    {
        self.ip.to_ipv6()
    }

    /// Get an IPv6 string.
    pub fn get_ipv6_string(&self) -> (r: String)
        ensures
            r@ == ipv6_text(self.ip.ipv6()),
    {
        self.ip.to_ipv6().to_text()
    }

    /// The client's address as text.
    pub fn to_text(&self) -> (r: String)
        ensures
            r@ == address_text(self.ip),
    {
        self.ip.to_text()
    }
}

} // verus!
