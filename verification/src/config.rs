//! Application configuration: the fixed names, ports and timing constants
//! the bridge and its generated scripts agree on.
use vstd::prelude::*;

use crate::strutil::{spec_i64_str, i32_to_string};

verus! {

/// Name of the bridge's own loopback interface.
pub const APPLICATION_IP: &'static str = "127.0.0.1";

/// Variable name of the engine-side socket the generated scripts answer on.
pub const SERVER_OSC_SOCKET_NAME: &'static str = "o";

/// Variable name of the engine server in generated scripts.
pub const SERVER_NAME: &'static str = "s";

/// Seconds the engine socket waits for traffic before giving up a read.
pub const SC_SERVER_INCOMING_READ_TIMEOUT: u64 = 30;

/// Port the engine sends its replies to.
pub const SERVER_OUT_PORT: i32 = 13338;

/// Port the engine's interpreter listens on.
pub const SCLANG_IN_PORT: i32 = 13336;

/// Port the engine's synthesis server listens on.
pub const SERVER_IN_PORT: i32 = 13337;

/// Port external callers send commands to.
pub const APPLICATION_IN_PORT: i32 = 13331;

/// Memory the engine is booted with.
pub const SUPERCOLLIDER_MEMORY_BYTES: i32 = 2000000;

/// Fixed scheduling latency added to every outgoing engine message so the
/// engine executes at an even pace despite its own jitter.
pub const LATENCY_MS: u64 = 70;

/// View of the loopback interface name.
pub open spec fn spec_application_ip() -> Seq<char> {
    "127.0.0.1"@
}

/// View of the engine-side socket name.
pub open spec fn spec_server_socket_name() -> Seq<char> {
    "o"@
}

/// View of the engine server's script name.
pub open spec fn spec_server_name() -> Seq<char> {
    "s"@
}

/// The loopback address text for one port.
pub open spec fn spec_get_addr(port: int) -> Seq<char> {
    spec_application_ip() + ":"@ + spec_i64_str(port)
}

/// The loopback address text for one port.
pub fn get_addr(port: i32) -> (r: String)
    ensures
        r@ == spec_get_addr(port as int),
{
    let mut out = APPLICATION_IP.to_owned();
    out.append(":");
    let p = i32_to_string(port);
    out.append(p.as_str());
    out
}

} // verus!
