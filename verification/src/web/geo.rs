//! Which addresses of a run are geolocated for the map of the web interface.

use vstd::prelude::*;
use crate::types::IpAddress;

verus! {

/// An address skipped by the geolocation: unreadable, or private, loopback,
/// link-local or broadcast for IPv4, loopback or unspecified for IPv6.
pub open spec fn spec_geo_skipped(ip: Option<IpAddress>) -> bool {
    match ip {
        None => true,
        Some(IpAddress::V4(v)) => {
            let a = v / 0x100_0000;
            let b = (v / 0x1_0000) % 256;
            ||| a == 10
            ||| (a == 172 && 16 <= b && b < 32)
            ||| (a == 192 && b == 168)
            ||| a == 127
            ||| (a == 169 && b == 254)
            ||| v == 0xffff_ffff
        },
        Some(IpAddress::V6(v)) => v == 1 || v == 0,
    }
}

/// Whether the address (`None` when the text could not be read as one) is
/// left out of the geolocation.
pub fn geo_skipped(ip: Option<IpAddress>) -> (r: bool)
    ensures
        r == spec_geo_skipped(ip),
{
    match ip {
        None => true,
        Some(IpAddress::V4(v)) => {
            let a = v / 0x100_0000;
            let b = (v / 0x1_0000) % 256;
            a == 10 || (a == 172 && 16 <= b && b < 32) || (a == 192 && b == 168) || a == 127 || (a == 169 && b
                == 254) || v == 0xffff_ffff
        },
        Some(IpAddress::V6(v)) => v == 1 || v == 0,
    }
}

} // verus!
