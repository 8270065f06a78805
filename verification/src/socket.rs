use vstd::prelude::*;

use crate::errors::{Error, ErrorView};
use crate::text::{decimal, push_decimal, push_str};

verus! {

broadcast use vstd::string::group_string_axioms;

/// What can go wrong with a socket of the language.
#[derive(Debug, Clone)]
pub enum SocketError {
    BindError(String),
    AcceptError(String),
    ReadError(String),
}

impl SocketError {
    /// The text that reports this error: the same for every kind.
    pub fn message_text(&self) -> (s: String)
        ensures
            s@ == "Socket Error"@,
    {
        "Socket Error".to_string()
    }
}

/// A connection that bytes can be read from.
pub trait Connectionable {
    /// Reads up to `buffer` bytes.
    fn read(&mut self, buffer: usize) -> Result<Vec<u8>, SocketError>;
}

/// The host that a socket binds to: `localhost` stands for the loopback address.
pub open spec fn bind_host(host: Seq<char>) -> Seq<char> {
    if host == "localhost"@ {
        "127.0.0.1"@
    } else {
        host
    }
}

/// The address that a socket binds to: the host, a colon, and the port.
pub fn bind_address(host: &str, port: u16) -> (s: String)
    ensures
        s@ == bind_host(host@) + ":"@ + decimal(port as nat),
{
    let given = host.to_string();
    let local = "localhost".to_string();
    let mut s = String::new();
    if given == local {
        push_str(&mut s, "127.0.0.1");
    } else {
        push_str(&mut s, host);
    }
    push_str(&mut s, ":");
    push_decimal(&mut s, port as usize);
    s
}

/// The message of a socket that could not bind.
pub open spec fn bind_error_message(host: Seq<char>, port: u16) -> Seq<char> {
    "Failed to bind socket to "@ + host + ":"@ + decimal(port as nat) + ". Error: Socket Error"@
}

/// The error of `bind` where the socket could not bind, whatever kind of socket error it was.
pub fn bind_error(host: &str, port: u16, e: &SocketError) -> (r: Error)
    ensures
        r@ == ErrorView::RuntimeError(bind_error_message(host@, port)),
{
    let mut message = String::new();
    push_str(&mut message, "Failed to bind socket to ");
    push_str(&mut message, host);
    push_str(&mut message, ":");
    push_decimal(&mut message, port as usize);
    push_str(&mut message, ". Error: ");
    let text = e.message_text();
    push_str(&mut message, text.as_str());
    proof {
        reveal_strlit(". Error: ");
        reveal_strlit("Socket Error");
        reveal_strlit(". Error: Socket Error");
        assert(". Error: "@ + "Socket Error"@ =~= ". Error: Socket Error"@);
    }
    assert(message@ =~= bind_error_message(host@, port));
    Error::RuntimeError(message)
}

/// The error of `accept` where no connection came, whatever kind of socket error it was.
pub fn accept_error(e: &SocketError) -> (r: Error)
    ensures
        r@ == ErrorView::RuntimeError("Failed to accept connection. Error: Socket Error"@),
{
    let mut message = String::new();
    push_str(&mut message, "Failed to accept connection. Error: ");
    let text = e.message_text();
    push_str(&mut message, text.as_str());
    proof {
        reveal_strlit("Failed to accept connection. Error: ");
        reveal_strlit("Socket Error");
        reveal_strlit("Failed to accept connection. Error: Socket Error");
    }
    assert(message@ =~= "Failed to accept connection. Error: Socket Error"@);
    Error::RuntimeError(message)
}

/// The error of `recv` where the connection could not be read, whatever kind of socket error
/// it was.
pub fn read_error(e: &SocketError) -> (r: Error)
    ensures
        r@ == ErrorView::RuntimeError("Failed to read from connection: Socket Error"@),
{
    let mut message = String::new();
    push_str(&mut message, "Failed to read from connection: ");
    let text = e.message_text();
    push_str(&mut message, text.as_str());
    proof {
        reveal_strlit("Failed to read from connection: ");
        reveal_strlit("Socket Error");
        reveal_strlit("Failed to read from connection: Socket Error");
    }
    assert(message@ =~= "Failed to read from connection: Socket Error"@);
    Error::RuntimeError(message)
}

} // verus!
