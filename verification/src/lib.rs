//! Streams that arrive as SECS-II messages over HSMS. One data message is
//! one Stream: the stream and function that address it travel in the
//! origin URI, and the body — SECS-II items, encoded — is what Xmip carries.
//!
//! SECS/GEM is how semiconductor equipment talks to the factory host: SEMI
//! E37 (HSMS) carries SEMI E5 (SECS-II) messages over TCP, conventionally
//! on port 5000, addressed by stream and function — S1F13 establishes
//! communication, S6F11 reports an event, S2F41 sends a remote command —
//! with a wait bit that says a reply is expected under the next function
//! up. A Receive Location is the passive side: it listens, accepts one
//! equipment's select, and hands each data message up. A Send Location is
//! the active side: it connects, selects, sends one message as the stream
//! and function the target names, waits for the reply if the wait bit is
//! set, and separates. [`Connection`] is either side for a Journey that
//! must reply, and [`item`] reads and writes the SECS-II bodies.
//!
//! The origin URI carries what the header knew:
//! `secs-gem://peer?session=1&stream=6&function=11`. A target is
//! `secs-gem://host:5000?stream=6&function=11&wait=1`, S6F11 without a
//! query, or a bare `host:port`.

pub mod connection;
pub mod connection_laws;
pub mod error;
pub mod hsms;
pub mod hsms_laws;
pub mod item;
pub mod item_format_laws;
pub mod item_laws;
pub mod number;
pub mod target;
pub mod target_laws;
pub mod text;
pub mod wire;

use std::time::Duration;
use vstd::prelude::*;

pub use connection::Connection;
pub use error::Error;
pub use hsms::{Header, Message, SType};
pub use item::Item;

verus! {

/// How this side listens, selects and sends.
#[derive(Clone)]
pub struct SecsGemTransport {
    bind: String,
    session_id: u16,
    wait: bool,
    timeout: Option<Duration>,
}

/// What a transport is set to.
pub struct TransportView {
    pub bind: Seq<char>,
    pub session_id: u16,
    pub wait: bool,
    pub timeout: Option<Duration>,
}

impl View for SecsGemTransport {
    type V = TransportView;

    closed spec fn view(&self) -> TransportView {
        TransportView {
            bind: self.bind@,
            session_id: self.session_id,
            wait: self.wait,
            timeout: self.timeout,
        }
    }
}

impl SecsGemTransport {
    /// Listen at `bind`; `0.0.0.0:5000` is the conventional port. Selects
    /// are made under session id 0xFFFF until [`Self::with_session`] says
    /// otherwise, and a message sent does not wait for a reply unless the
    /// target or [`Self::awaiting_reply`] says so.
    #[must_use]
    pub fn new(bind: &str) -> (transport: SecsGemTransport)
        ensures
            transport@ == (TransportView {
                bind: bind@,
                session_id: connection::ANY_SESSION,
                wait: false,
                timeout: None,
            }),
    {
        SecsGemTransport {
            bind: bind.to_owned(),
            session_id: connection::ANY_SESSION,
            wait: false,
            timeout: None,
        }
    }

    /// The session id — the device id — a select is made under.
    #[must_use]
    pub fn with_session(self, session_id: u16) -> (transport: SecsGemTransport)
        ensures
            transport@ == (TransportView { session_id, ..self@ }),
    {
        SecsGemTransport { session_id, ..self }
    }

    /// Set the wait bit on what is sent and take the reply, unless the
    /// target says `wait=0`.
    #[must_use]
    pub fn awaiting_reply(self) -> (transport: SecsGemTransport)
        ensures
            transport@ == (TransportView { wait: true, ..self@ }),
    {
        SecsGemTransport { wait: true, ..self }
    }

    /// Give up on a peer that stops mid-message or never replies.
    #[must_use]
    pub fn timing_out_after(self, timeout: Duration) -> (transport: SecsGemTransport)
        ensures
            transport@ == (TransportView { timeout: Some(timeout), ..self@ }),
    {
        SecsGemTransport { timeout: Some(timeout), ..self }
    }

    /// Both ends on this machine: an ephemeral local port for the passive
    /// side, `timeout` on every read. The near end sends the payload as the
    /// body of one S6F11 without waiting for a reply.
    #[must_use]
    pub fn loopback(timeout: Duration) -> (transport: SecsGemTransport)
        ensures
            transport@ == (TransportView {
                bind: "127.0.0.1:0"@,
                session_id: connection::ANY_SESSION,
                wait: false,
                timeout: Some(timeout),
            }),
    {
        SecsGemTransport::new("127.0.0.1:0").timing_out_after(timeout)
    }

    /// The near end of a loopback to this transport: a loopback that selects
    /// under this transport's session id.
    #[must_use]
    pub fn near_end(&self, timeout: Duration) -> (transport: SecsGemTransport)
        ensures
            transport@ == (TransportView {
                bind: "127.0.0.1:0"@,
                session_id: self@.session_id,
                wait: false,
                timeout: Some(timeout),
            }),
    {
        SecsGemTransport::loopback(timeout).with_session(self.session_id)
    }

    /// What this transport is called, and the scheme of its URIs.
    pub fn name(&self) -> (name: &'static str)
        ensures
            name@ == "secs-gem"@,
    {
        "secs-gem"
    }

    /// The address to listen at.
    pub fn bind_address(&self) -> (address: &str)
        ensures
            address@ == self@.bind,
    {
        self.bind.as_str()
    }

    /// The session id a select is made under.
    pub fn session_id(&self) -> (session_id: u16)
        ensures
            session_id == self@.session_id,
    {
        self.session_id
    }

    /// How long a peer may stop before it is given up on.
    pub fn timeout(&self) -> (timeout: Option<Duration>)
        ensures
            timeout == self@.timeout,
    {
        self.timeout
    }

    /// What a target names: the address, the stream and function, and
    /// whether to wait. `authority` is what stands behind the scheme in
    /// `secs-gem://host:5000?stream=6&function=11&wait=1`; a `target` that
    /// is a bare `host:port` has none, and names S6F11. Refused is a setting
    /// of the query that is not a number from 0 to 255.
    pub fn resolve(&self, target: &str, authority: Option<&str>) -> (result: Result<
        (String, u8, u8, bool),
        Error,
    >)
        ensures
            match authority {
                None => {
                    &&& result matches Ok((address, stream, function, wait))
                    &&& address@ == target@
                    &&& (stream, function, wait) == (6u8, 11u8, self@.wait)
                },
                Some(authority) => match target::named_by(authority@, self@.wait) {
                    Ok(named) => {
                        &&& result matches Ok((address, stream, function, wait))
                        &&& address@ == named.0
                        &&& (stream, function, wait) == (
                            named.1.stream,
                            named.1.function,
                            named.1.wait,
                        )
                    },
                    Err(setting) => {
                        &&& result matches Err(Error::NotANumber { key, value })
                        &&& key@ == setting.0
                        &&& value@ == setting.1
                    },
                },
            },
    {
        match authority {
            None => Ok((target.to_owned(), 6, 11, self.wait)),
            Some(authority) => match target::read_authority(authority, self.wait) {
                Ok((address, settings)) => Ok(
                    (address, settings.stream, settings.function, settings.wait),
                ),
                Err(error) => Err(error),
            },
        }
    }
}

} // verus!
