//! The local SOCKS5 server of dynamic forwarding (`ssh -D`): judging what a
//! client sends and what it is answered.
use vstd::prelude::*;
use vstd::utf8::*;

use crate::error::{ssh_error, Error};
use crate::foreign::string_from_utf8;
use crate::text::{decimal, owned, push_decimal, push_str};

verus! {

pub const SOCKS5: u8 = 5;
pub const CMD_CONNECT: u8 = 1;
pub const ATYP_IPV4: u8 = 1;
pub const ATYP_DOMAIN: u8 = 3;
pub const ATYP_IPV6: u8 = 4;
pub const REP_SUCCESS: u8 = 0;
pub const REP_GENERAL_FAILURE: u8 = 1;
pub const REP_CMD_NOT_SUPPORTED: u8 = 7;

fn ssh_err(m: &str) -> (e: Error)
    ensures
        ssh_error(e, m@),
{
    Error::Ssh(owned(m))
}

/// Judges a client greeting `[version, number of methods]`; on success, the
/// number of method bytes that follow.
pub fn greeting_methods(version: u8, nmethods: u8) -> (r: Result<usize, Error>)
    ensures
        version == SOCKS5 ==> r == Ok::<usize, Error>(nmethods as usize),
        version != SOCKS5 ==> r is Err && ssh_error(r->Err_0, "not a SOCKS5 client"@),
{
    if version != SOCKS5 {
        Err(ssh_err("not a SOCKS5 client"))
    } else {
        Ok(nmethods as usize)
    }
}

/// The answer to a greeting: no authentication required.
pub fn no_auth_reply() -> (r: Vec<u8>)
    ensures
        r@ == seq![SOCKS5, 0u8],
{
    let r = vec![SOCKS5, 0u8];
    assert(r@ =~= seq![SOCKS5, 0u8]);
    r
}

/// The form of the destination address in a CONNECT request.
#[derive(Debug, Clone, Copy, PartialEq, Eq, Structural)]
pub enum AddressForm {
    Ipv4,
    Domain,
    Ipv6,
}

/// A request that is refused: the reply code to send first, if any, and the error.
pub struct Refusal {
    pub reply: Option<u8>,
    pub error: Error,
}

/// Judges a request head `[version, command, reserved, address type]`.
pub fn request_form(version: u8, cmd: u8, atyp: u8) -> (r: Result<AddressForm, Refusal>)
    ensures
        version != SOCKS5 ==> (r matches Err(f) && f.reply is None && ssh_error(
            f.error,
            "bad SOCKS5 request"@,
        )),
        version == SOCKS5 && cmd != CMD_CONNECT ==> (r matches Err(f) && f.reply == Some(
            REP_CMD_NOT_SUPPORTED,
        ) && ssh_error(f.error, "only SOCKS5 CONNECT is supported"@)),
        version == SOCKS5 && cmd == CMD_CONNECT ==> {
            &&& atyp == ATYP_IPV4 ==> r == Ok::<AddressForm, Refusal>(AddressForm::Ipv4)
            &&& atyp == ATYP_DOMAIN ==> r == Ok::<AddressForm, Refusal>(AddressForm::Domain)
            &&& atyp == ATYP_IPV6 ==> r == Ok::<AddressForm, Refusal>(AddressForm::Ipv6)
            &&& (atyp != ATYP_IPV4 && atyp != ATYP_DOMAIN && atyp != ATYP_IPV6) ==> (r matches Err(
                f,
            ) && f.reply is None && ssh_error(
                f.error,
                "unsupported SOCKS5 address type "@ + decimal(atyp as nat),
            ))
        },
{
    if version != SOCKS5 {
        return Err(Refusal { reply: None, error: ssh_err("bad SOCKS5 request") });
    }
    if cmd != CMD_CONNECT {
        return Err(
            Refusal {
                reply: Some(REP_CMD_NOT_SUPPORTED),
                error: ssh_err("only SOCKS5 CONNECT is supported"),
            },
        );
    }
    if atyp == ATYP_IPV4 {
        Ok(AddressForm::Ipv4)
    } else if atyp == ATYP_DOMAIN {
        Ok(AddressForm::Domain)
    } else if atyp == ATYP_IPV6 {
        Ok(AddressForm::Ipv6)
    } else {
        let mut m = owned("unsupported SOCKS5 address type ");
        push_decimal(&mut m, atyp as u64);
        Err(Refusal { reply: None, error: Error::Ssh(m) })
    }
}

/// Dotted-decimal text of an IPv4 address.
pub open spec fn ipv4_text_spec(a: Seq<u8>) -> Seq<char> {
    decimal(a[0] as nat) + "."@ + decimal(a[1] as nat) + "."@ + decimal(a[2] as nat) + "."@
        + decimal(a[3] as nat)
}

/// The text form of an IPv4 address, as `Ipv4Addr`'s `Display` writes it.
pub fn ipv4_text(addr: &[u8; 4]) -> (s: String)
    ensures
        s@ == ipv4_text_spec(addr@),
{
    let mut s = String::new();
    push_decimal(&mut s, addr[0] as u64);
    push_str(&mut s, ".");
    push_decimal(&mut s, addr[1] as u64);
    push_str(&mut s, ".");
    push_decimal(&mut s, addr[2] as u64);
    push_str(&mut s, ".");
    push_decimal(&mut s, addr[3] as u64);
    assert(s@ =~= ipv4_text_spec(addr@));
    s
}

/// A requested domain name, which must be UTF-8.
pub fn domain_text(domain: Vec<u8>) -> (r: Result<String, Error>)
    ensures
        valid_utf8(domain@) ==> (r matches Ok(s) && s@ == decode_utf8(domain@)),
        !valid_utf8(domain@) ==> r is Err && ssh_error(r->Err_0, "invalid SOCKS5 domain"@),
{
    match string_from_utf8(domain) {
        Ok(s) => Ok(s),
        Err(_) => Err(ssh_err("invalid SOCKS5 domain")),
    }
}

/// A port sent in network byte order.
pub fn port_from_be(hi: u8, lo: u8) -> (p: u16)
    ensures
        p == hi as nat * 256 + lo as nat,
{
    (hi as u16) * 256 + lo as u16
}

/// A reply with the given code and a null bound address.
pub fn reply_bytes(rep: u8) -> (r: Vec<u8>)
    ensures
        r@ == seq![SOCKS5, rep, 0u8, ATYP_IPV4, 0u8, 0u8, 0u8, 0u8, 0u8, 0u8],
{
    let r = vec![SOCKS5, rep, 0u8, ATYP_IPV4, 0u8, 0u8, 0u8, 0u8, 0u8, 0u8];
    assert(r@ =~= seq![SOCKS5, rep, 0u8, ATYP_IPV4, 0u8, 0u8, 0u8, 0u8, 0u8, 0u8]);
    r
}

} // verus!
