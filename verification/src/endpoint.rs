//! Where a datagram socket is bound.

use vstd::prelude::*;
use vstd::string::*;

verus! {

/// The port from which messages and files are sent.
pub const DEFAULT_PORT: &'static str = "4123";

/// The address of every local interface, up to the port.
pub open spec fn any_interface() -> Seq<char> {
    "0.0.0.0:"@
}

/// Returns the address to bind a socket to for the given port: the port on
/// every local interface.
pub fn bind_address(port: &str) -> (address: String)
    ensures
        address@ == any_interface() + port@,
{
    let mut address = String::from_str("0.0.0.0:");
    address.append(port);
    address
}

} // verus!
