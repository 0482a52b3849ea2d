//! Which forwarder a tunnel runs, and the port a remote forward ends up on.
use vstd::prelude::*;

use crate::error::{ssh_error, Error};
use crate::model::tunnel_config::{ForwardKind, ForwardTarget};
use crate::text::{decimal, owned, push_decimal, push_str};

verus! {

/// The forwarder to run on an open session.
#[derive(Debug, Clone, PartialEq, Eq)]
pub enum Route {
    /// `-L`: local listener, each connection carried to `target`.
    Local { target: ForwardTarget },
    /// `-R`: the server listens and sends connections back.
    Remote,
    /// `-D`: local SOCKS5 proxy.
    Dynamic,
}

/// A local forward needs a target; the other kinds carry their destination
/// in each connection.
pub fn forward_route(kind: ForwardKind, target: Option<ForwardTarget>) -> (r: Result<Route, Error>)
    ensures
        kind is Local ==> match target {
            Some(t) => r == Ok::<Route, Error>(Route::Local { target: t }),
            None => r is Err && ssh_error(r->Err_0, "local tunnel has no target"@),
        },
        kind is Remote ==> r == Ok::<Route, Error>(Route::Remote),
        kind is Dynamic ==> r == Ok::<Route, Error>(Route::Dynamic),
{
    match kind {
        ForwardKind::Local => match target {
            Some(t) => Ok(Route::Local { target: t }),
            None => Err(Error::Ssh(owned("local tunnel has no target"))),
        },
        ForwardKind::Remote => Ok(Route::Remote),
        ForwardKind::Dynamic => Ok(Route::Dynamic),
    }
}

/// The server-side port of a remote forward: the requested one, or, when
/// port 0 asked the server to choose, the port it reports (as a 16-bit port).
pub fn remote_listen_port(requested: u16, bound: u32) -> (p: u16)
    ensures
        requested != 0 ==> p == requested,
        requested == 0 ==> p == bound as u16,
{
    if requested == 0 {
        bound as u16
    } else {
        requested
    }
}

pub open spec fn endpoint_text(host: Seq<char>, port: nat) -> Seq<char> {
    host + ":"@ + decimal(port)
}

/// `host:port`, as the logs show an address.
pub fn endpoint(host: &str, port: u16) -> (s: String)
    ensures
        s@ == endpoint_text(host@, port as nat),
{
    let mut s = owned(host);
    push_str(&mut s, ":");
    push_decimal(&mut s, port as u64);
    s
}

} // verus!
