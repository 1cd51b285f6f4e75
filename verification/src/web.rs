//! The health-check web service started next to the desktop application.

use vstd::prelude::*;
use crate::text::{address_string, address_text};

verus! {

/// The address the health-check service listens on for `port`: every
/// interface, `0.0.0.0:port`.
pub fn listen_address(port: u16) -> (r: String)
    ensures
        r@ == address_text("0.0.0.0"@, port),
{
    address_string("0.0.0.0", port)
}

} // verus!
