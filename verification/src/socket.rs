//! The socket that clients reach the daemon on.
use vstd::prelude::*;

verus! {

/// The name of the socket where none is given.
pub const DEFAULT_SOCKET_NAME: &'static str = "cdp-unix";

} // verus!
