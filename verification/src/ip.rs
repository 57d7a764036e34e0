//! IP addresses.

use vstd::prelude::*;

verus! {

/// An IP address of either family, as its octets in network order.
#[derive(Clone, Copy, Debug, PartialEq, Eq)]
pub enum IpAddr {
    V4([u8; 4]),
    V6([u8; 16]),
}

impl View for IpAddr {
    type V = Seq<u8>;

    /// The octets: four of them or sixteen, by the family.
    open spec fn view(&self) -> Seq<u8> {
        match *self {
            IpAddr::V4(octets) => octets@,
            IpAddr::V6(octets) => octets@,
        }
    }
}

/// Whether octets are those of an address.
pub open spec fn is_address(octets: Seq<u8>) -> bool {
    octets.len() == 4 || octets.len() == 16
}

/// The octets of the address that a text stands for, as the standard library reads addresses.
pub uninterp spec fn ip_of_text(text: Seq<char>) -> Option<Seq<u8>>;

/// `str::parse` at the address type that `ipnet::IpNet::new` takes. What it accepts is named, not
/// spelled out: dotted decimal for the one family, colon hexadecimal for the other.
#[verifier::external_body]
pub(crate) fn parse_ip(text: &str) -> (r: Option<IpAddr>)
    ensures
        match r {
            Some(ip) => ip_of_text(text@) == Some(ip@),
            None => ip_of_text(text@) is None,
        },
{
    match ipnet::IpNet::new(text.parse().ok()?, 0).ok()? {
        ipnet::IpNet::V4(net) => Some(IpAddr::V4(net.addr().octets())),
        ipnet::IpNet::V6(net) => Some(IpAddr::V6(net.addr().octets())),
    }
}

} // verus!
