use vstd::prelude::*;
use vstd::string::StringExecFns;

verus! {

/// Put in front of every operator line sent to the clients.
pub const BROADCAST_MARKER: &'static str = "server> ";

/// The host the listener binds to.
pub const LISTEN_HOST: &'static str = "127.0.0.1";

/// The port the listener binds to when none is chosen.
pub const DEFAULT_PORT: &'static str = "7878";

/// The message that every client receives for one operator line: the marker,
/// then the line as it was read, its newline included.
pub fn broadcast_line(line: &str) -> (r: String)
    ensures
        r@ == BROADCAST_MARKER@ + line@,
{
    String::from_str(BROADCAST_MARKER).concat(line)
}

/// The local address to listen on for `port`: host and port joined by a colon.
pub fn listen_address(port: &str) -> (r: String)
    ensures
        r@ == LISTEN_HOST@ + ":"@ + port@,
{
    String::from_str(LISTEN_HOST).concat(":").concat(port)
}

} // verus!
