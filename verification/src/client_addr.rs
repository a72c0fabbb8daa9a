//! The client's address as the walk over the forwarding header finds it.

use vstd::prelude::*;
use crate::address::{Address, Ipv4Address, Ipv6Address};
use crate::format::{address_text, ipv4_text, ipv6_text};
use crate::resolver::{header_text, resolve, resolve_by_headers, resolved, resolved_by_headers};

verus! {

/// The address of the client that sent a request.
#[derive(Clone, Copy, Debug, PartialEq, Eq, Structural, PartialOrd, Ord, Hash)]
pub struct ClientAddr {
    /// IP address from a client.
    pub ip: Address,
}

/// The client with the given address, if there is an address.
pub open spec fn client_of(ip: Option<Address>) -> Option<ClientAddr> {
    match ip {
        Some(ip) => Some(ClientAddr { ip }),
        None => None,
    }
}

impl ClientAddr {
    /// The client of a request with the given transport peer, first
    /// forwarding header and address vouched for by the HTTP layer; see
    /// [`resolved`]. `None` says that the request shows no address.
    pub fn from_parts(
        remote: Option<Address>,
        forwarded_for: Option<&str>,
        real_ip: Option<Address>,
    ) -> (r: Option<ClientAddr>)
        ensures
            r == client_of(resolved(remote, header_text(forwarded_for), real_ip)),
    {
        match resolve(remote, forwarded_for, real_ip) {
            Some(ip) => Some(ClientAddr { ip }),
            None => None,
        }
    }

    /// The client of a request behind a single proxy, from the transport
    /// peer and the two headers in which such a proxy names the client; see
    /// [`resolved_by_headers`].
    pub fn from_headers(
        remote: Option<Address>,
        real_ip_header: Option<&str>,
        forwarded_header: Option<&str>,
    ) -> (r: Option<ClientAddr>)
        ensures
            r == client_of(
                resolved_by_headers(
                    remote,
                    header_text(real_ip_header),
                    header_text(forwarded_header),
                ),
            ),
    {
        match resolve_by_headers(remote, real_ip_header, forwarded_header) {
            Some(ip) => Some(ClientAddr { ip }),
            None => None,
        }
    }

    /// Get an IPv4 address: the client's own, or the one that its IPv6
    /// address carries.
    pub fn get_ipv4(&self) -> (r: Option<Ipv4Address>)
        ensures
            r == self.ip.ipv4(),
    {
        self.ip.to_ipv4()
    }

    /// Get an IPv4 string.
    pub fn get_ipv4_string(&self) -> (r: Option<String>)
        ensures
            match r {
                Some(s) => self.ip.ipv4() is Some && s@ == ipv4_text(self.ip.ipv4()->0),
                None => self.ip.ipv4() is None,
            },
    {
        match self.ip.to_ipv4() {
            Some(a) => Some(a.to_text()),
            None => None,
        }
    }

    /// Get an IPv6 address: the client's own, or its IPv4 address mapped
    /// into IPv6.
    pub fn get_ipv6(&self) -> (r: Ipv6Address)
        ensures
            r == self.ip.ipv6(),
    {
        self.ip.to_ipv6()
    }

    /// Get an IPv6 string.
    pub fn get_ipv6_string(&self) -> (r: String)
        ensures
            r@ == ipv6_text(self.ip.ipv6()),
    {
        self.ip.to_ipv6().to_text()
    }

    /// The client's address as text.
    pub fn to_text(&self) -> (r: String)
        ensures
            r@ == address_text(self.ip),
    {
        self.ip.to_text()
    }
}

} // verus!
