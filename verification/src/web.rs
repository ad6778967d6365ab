//! The web interface: what it answers, and where it is found.

use crate::network::IpAddress;
use crate::session::optional_text;
use crate::text::{concat, decimal, decimal_text, numbered};
use vstd::prelude::*;

verus! {

/// An answer to a request.
#[derive(Debug)]
pub struct Reply {
    /// The status code of the answer.
    pub status: u16,
    pub result: Option<String>,
    pub error: Option<String>,
}

/// The mathematical value of a `Reply`.
pub struct ReplyModel {
    pub status: u16,
    pub result: Option<Seq<char>>,
    pub error: Option<Seq<char>>,
}

impl View for Reply {
    type V = ReplyModel;

    open spec fn view(&self) -> ReplyModel {
        ReplyModel {
            status: self.status,
            result: optional_text(self.result),
            error: optional_text(self.error),
        }
    }
}

/// The answer to a request that failed: a bad request, with the reason.
pub open spec fn failed(error: Seq<char>) -> ReplyModel {
    ReplyModel { status: 400, result: None, error: Some(error) }
}

/// The answer to a request that succeeded.
pub open spec fn succeeded(status: u16, result: Seq<char>) -> ReplyModel {
    ReplyModel { status, result: Some(result), error: None }
}

/// Answers the request to create a transmitter, with the session that was created.
pub fn transmitter_created(outcome: Result<String, String>) -> (reply: Reply)
    ensures
        reply@ == (match outcome {
            Ok(session_id) => succeeded(201, session_id@),
            Err(error) => failed(error@),
        }),
{
    match outcome {
        Ok(session_id) => Reply { status: 201, result: Some(session_id), error: None },
        Err(error) => Reply { status: 400, result: None, error: Some(error) },
    }
}

/// Answers the request to receive a stream.
pub fn receiving_stream(outcome: Result<(), String>) -> (reply: Reply)
    ensures
        reply@ == (match outcome {
            Ok(_) => succeeded(201, "OK"@),
            Err(error) => failed(error@),
        }),
{
    match outcome {
        Ok(_) => Reply { status: 201, result: Some("OK".to_owned()), error: None },
        Err(error) => Reply { status: 400, result: None, error: Some(error) },
    }
}

/// Answers the request to delete a receiver.
pub fn receiver_deleted(outcome: Result<(), String>) -> (reply: Reply)
    ensures
        reply@ == (match outcome {
            Ok(_) => succeeded(200, "OK"@),
            Err(error) => failed(error@),
        }),
{
    match outcome {
        Ok(_) => Reply { status: 200, result: Some("OK".to_owned()), error: None },
        Err(error) => Reply { status: 400, result: None, error: Some(error) },
    }
}

/// How the web interface reaches the key value store.
#[derive(Debug)]
pub struct WebConfig {
    pub backend_scheme: String,
    pub backend_host: String,
    pub backend_port: Option<u16>,
    pub backend_path: String,
    pub backend_auth_token: Option<String>,
}

/// How the web interface reaches the key value store on a host.
pub fn web_config(host: String, auth_token: Option<String>) -> (config: WebConfig)
    ensures
        config.backend_scheme@ == "ws"@,
        config.backend_host@ == host@,
        config.backend_port == Some(80u16),
        config.backend_path@ == "/ws"@,
        optional_text(config.backend_auth_token) == optional_text(auth_token),
{
    WebConfig {
        backend_scheme: "ws".to_owned(),
        backend_host: host,
        backend_port: Some(80),
        backend_path: "/ws".to_owned(),
        backend_auth_token: auth_token,
    }
}

/// The usual notation of an IPv4 address.
pub open spec fn dotted(bits: u32) -> Seq<char> {
    decimal((bits / 0x100_0000) as nat) + "."@ + decimal((bits / 0x1_0000 % 0x100) as nat) + "."@
        + decimal((bits / 0x100 % 0x100) as nat) + "."@ + decimal((bits % 0x100) as nat)
}

/// Writes an IPv4 address in the usual notation.
pub fn dotted_text(bits: u32) -> (text: String)
    ensures
        text@ == dotted(bits),
{
    let mut text = decimal_text((bits / 0x100_0000) as u64);
    text.append(".");
    text = numbered(text.as_str(), (bits / 0x1_0000 % 0x100) as u64);
    text.append(".");
    text = numbered(text.as_str(), (bits / 0x100 % 0x100) as u64);
    text.append(".");
    numbered(text.as_str(), (bits % 0x100) as u64)
}

/// The address of the web interface at a host.
pub open spec fn web_address(host: Seq<char>, port: u16) -> Seq<char> {
    "http://"@ + host + ":"@ + decimal(port as nat)
}

/// Writes the address of the web interface at a host.
pub fn web_address_text(host: &str, port: u16) -> (text: String)
    ensures
        text@ == web_address(host@, port),
{
    let mut text = concat("http://", host);
    text.append(":");
    numbered(text.as_str(), port as u64)
}

/// An address of the web interface, and whether it is opened in the browser.
pub open spec fn web_link(ip: IpAddress, port: u16) -> Option<(Seq<char>, bool)> {
    match ip {
        IpAddress::V4(bits) => Some((web_address(dotted(bits), port), ip.loopback())),
        IpAddress::V6(_) => None,
    }
}

/// Where the web interface is found at an address of the machine, if it is
/// found there at all, and whether that is opened in the browser: the
/// interface is offered at IPv4 addresses, and opened at those that denote the
/// machine itself.
pub fn web_link_at(ip: IpAddress, port: u16) -> (link: Option<(String, bool)>)
    ensures
        match link {
            Some((address, open)) => web_link(ip, port) == Some((address@, open)),
            None => web_link(ip, port) is None,
        },
{
    match ip {
        IpAddress::V4(bits) => Some(
            (web_address_text(dotted_text(bits).as_str(), port), ip.is_loopback()),
        ),
        IpAddress::V6(_) => None,
    }
}

/// The address on which the web interface listens.
pub fn listen_address(port: u16) -> (address: String)
    ensures
        address@ == "0.0.0.0:"@ + decimal(port as nat),
{
    numbered("0.0.0.0:", port as u64)
}

/// An IPv4 address is written byte by byte, the highest one first, with dots
/// between them.
pub proof fn lemma_address_is_written_byte_by_byte(a: u8, b: u8, c: u8, d: u8)
    ensures
        dotted((a * 0x100_0000 + b * 0x1_0000 + c * 0x100 + d) as u32) == decimal(a as nat) + "."@
            + decimal(b as nat) + "."@ + decimal(c as nat) + "."@ + decimal(d as nat),
{
    let bits = (a * 0x100_0000 + b * 0x1_0000 + c * 0x100 + d) as u32;
    lemma_bytes_of_address(a, b, c, d, bits);
}

proof fn lemma_bytes_of_address(a: u8, b: u8, c: u8, d: u8, bits: u32)
    requires
        bits == a * 0x100_0000 + b * 0x1_0000 + c * 0x100 + d,
    ensures
        bits / 0x100_0000 == a,
        bits / 0x1_0000 % 0x100 == b,
        bits / 0x100 % 0x100 == c,
        bits % 0x100 == d,
{
    assert(bits / 0x100 == a * 0x1_0000 + b * 0x100 + c);
    assert(bits / 0x1_0000 == a * 0x100 + b);
}

/// The interface is offered at each IPv4 address of the machine, and at no
/// other. It is opened where the address begins with 127, and only there.
pub proof fn lemma_where_the_interface_is_offered(v4: u32, v6: u128, port: u16)
    ensures
        web_link(IpAddress::V6(v6), port) is None,
        web_link(IpAddress::V4(v4), port) matches Some((address, open)) && address == "http://"@
            + dotted(v4) + ":"@ + decimal(port as nat) && (open <==> v4 / 0x100_0000 == 127),
{
}

/// A request that failed is answered with the status of a bad request and the
/// reason, and one that succeeded with its own status and a result. There is
/// never both a result and an error.
pub proof fn lemma_replies_tell_the_outcome(text: Seq<char>, status: u16)
    ensures
        failed(text).status == 400,
        failed(text).error == Some(text),
        failed(text).result is None,
        succeeded(status, text).status == status,
        succeeded(status, text).result == Some(text),
        succeeded(status, text).error is None,
{
}

} // verus!
