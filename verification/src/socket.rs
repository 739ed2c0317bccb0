//! Transport addressing for i-PI connections.
//!
//! A connection target is either a TCP host and port or a Unix-domain
//! socket path derived deterministically from a host token: a fixed
//! directory plus the host name.  The resolution logic lives here; opening,
//! binding and accepting the actual sockets is the surrounding process's
//! work, which hands the resolved address to the operating system.

use vstd::prelude::*;
use vstd::string::StringExecFns;

verus! {

/// A socket for an i-PI client or driver.
#[derive(Debug, Clone)]
pub struct Socket {}

/// A resolved connection target.
#[derive(Debug, Clone)]
pub enum SocketAddress {
    /// A TCP endpoint.
    Tcp { host: String, port: u16 },
    /// A Unix-domain socket path.
    Unix { path: String },
}

/// The unix socket file name the i-PI server derives from a host name.
pub fn guess_unix_socket_file(host: &str) -> (r: String)
    ensures
        r@ == "/tmp/ipi_"@ + host@,
{
    let mut s = String::from_str("/tmp/ipi_");
    s.append(host);
    s
}

impl Socket {
    /// Resolve a connection target: with `unix` set, the socket path
    /// derived from `host`; otherwise the TCP endpoint `host:port`.
    pub fn resolve(host: &str, port: u16, unix: bool) -> (a: SocketAddress)
        ensures
            unix ==> (a matches SocketAddress::Unix { path } && path@ == "/tmp/ipi_"@ + host@),
            !unix ==> (a matches SocketAddress::Tcp { host: h, port: p } && h@ == host@ && p
                == port),
    {
        if unix {
            SocketAddress::Unix { path: guess_unix_socket_file(host) }
        } else {
            SocketAddress::Tcp { host: String::from_str(host), port }
        }
    }
}

} // verus!
