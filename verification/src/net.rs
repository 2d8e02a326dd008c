//! Network addresses as the core sees them.
//!
//! The stores key attempts and deny records by network address.  The core
//! never looks inside an address: it only compares two for equality and
//! carries them into the actions it decides on.  An address is held as its
//! bits and prefix length, enough to stand for any v4 or v6 network value.

use vstd::prelude::*;

verus! {

/// A network address: the address bits (v4 in the low 32 bits of `lo`),
/// the prefix length, and which family it belongs to.
#[derive(Clone, Copy, Debug, Hash, PartialEq, Eq, Structural)]
pub struct IpNet {
    pub hi: u64,
    pub lo: u64,
    pub prefix: u8,
    pub v6: bool,
}

/// Which strings denote a network address, and which address each denotes.
/// The answer depends on the characters alone.
pub uninterp spec fn spec_parsed_ip(s: Seq<char>) -> Option<IpNet>;

/// Relies on `ipnetwork::IpNetwork::from_str`: parses a textual v4 or v6
/// address with an optional prefix; the result is a function of the
/// characters alone.
#[verifier::external_body]
pub(crate) fn parse_ip(s: &str) -> (r: Option<IpNet>)
    ensures
        r == spec_parsed_ip(s@),
{
    match s.parse::<ipnetwork::IpNetwork>() {
        Ok(ipnetwork::IpNetwork::V4(n)) => Some(IpNet {
            hi: 0,
            lo: u32::from(n.ip()) as u64,
            prefix: n.prefix(),
            v6: false,
        }),
        Ok(ipnetwork::IpNetwork::V6(n)) => {
            let bits = u128::from(n.ip());
            Some(IpNet { hi: (bits >> 64) as u64, lo: bits as u64, prefix: n.prefix(), v6: true })
        },
        Err(_) => None,
    }
}

} // verus!
