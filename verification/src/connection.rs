//! One HSMS session: selected on connect, data messages either way,
//! linktests answered while waiting, and separate to end it.
//!
//! HSMS has an active side that connects and selects, and a passive side
//! that listens and accepts the select. Which is the host and which the
//! equipment is a matter of configuration, not protocol — E37 lets either
//! be either — so one type is both, and it is the constructor that says
//! which side this one is.
//!
//! A connection says which messages to write and what becomes of each that
//! is read; whoever holds the socket writes and reads them. What a read gave
//! is an `Option<Message>`, `None` where the peer closed between messages.

use crate::error::Error;
use crate::hsms::{
    control_header, data_header, reply_header, Header, Message, MessageView, SType,
};
use crate::text::{decimal, push_numeral};
use vstd::prelude::*;
use vstd::slice::slice_to_vec;

verus! {

/// The session id a select is made under when the equipment has not said.
pub const ANY_SESSION: u16 = 0xFFFF;

/// A selected HSMS connection, either side: one that was granted its select,
/// by [`Selecting::selected`], or granted the peer's, by
/// [`Connection::accept`].
pub struct Connection {
    peer: String,
    session_id: u16,
    next_system: u32,
}

/// What a connection knows: the far end's address, the session id selected,
/// and the system bytes it used last.
pub struct ConnectionView {
    pub peer: Seq<char>,
    pub session_id: u16,
    pub last_system: u32,
}

impl View for Connection {
    type V = ConnectionView;

    closed spec fn view(&self) -> ConnectionView {
        ConnectionView {
            peer: self.peer@,
            session_id: self.session_id,
            last_system: self.next_system,
        }
    }
}

/// The active side of a connection that waits for the answer to its select.
/// It can send nothing: only the answer that grants the select makes a
/// [`Connection`] of it.
pub struct Selecting {
    connection: Connection,
}

impl View for Selecting {
    type V = ConnectionView;

    closed spec fn view(&self) -> ConnectionView {
        self.connection@
    }
}

/// What an operation does about what was read: it writes `answer` first, if
/// there is one.
#[derive(Clone, Debug, PartialEq, Eq)]
pub struct Step {
    pub answer: Option<Message>,
    pub next: Next,
}

/// What an operation does once it has answered.
#[derive(Clone, Debug, PartialEq, Eq)]
pub enum Next {
    /// It reads on.
    ReadOn,
    /// It is over, with this message.
    Deliver(Message),
    /// It is over, with nothing more to say.
    Finished,
    /// It has failed.
    Refused(Error),
}

/// What a step says, messages by what they say.
pub struct StepView {
    pub answer: Option<MessageView>,
    pub next: NextView,
}

/// What an operation does once it has answered, messages by what they say.
pub enum NextView {
    ReadOn,
    Deliver(MessageView),
    Finished,
    Refused(Error),
}

impl View for Next {
    type V = NextView;

    open spec fn view(&self) -> NextView {
        match *self {
            Next::ReadOn => NextView::ReadOn,
            Next::Deliver(message) => NextView::Deliver(message@),
            Next::Finished => NextView::Finished,
            Next::Refused(error) => NextView::Refused(error),
        }
    }
}

/// What a message that may be missing says.
pub open spec fn said(message: Option<Message>) -> Option<MessageView> {
    match message {
        Some(message) => Some(message@),
        None => None,
    }
}

impl View for Step {
    type V = StepView;

    open spec fn view(&self) -> StepView {
        StepView { answer: said(self.answer), next: self.next@ }
    }
}

/// The control message of session type `stype` with `status`: no body.
pub open spec fn control_message(
    session_id: u16,
    stype: SType,
    status: u8,
    system: u32,
) -> MessageView {
    MessageView {
        header: control_header(session_id, stype, status, system),
        body: Seq::empty(),
    }
}

/// The control message of session type `stype` that answers the request
/// `request`: under the same session id and system bytes.
pub open spec fn answer_to(request: MessageView, stype: SType, status: u8) -> MessageView {
    control_message(request.header.session_id, stype, status, request.header.system)
}

/// The system bytes behind `system`.
pub open spec fn system_after(system: u32) -> u32 {
    if system == u32::MAX {
        0
    } else {
        (system + 1) as u32
    }
}

/// A control message, which has no body.
fn control(session_id: u16, stype: SType, status: u8, system: u32) -> (message: Message)
    ensures
        message@ == control_message(session_id, stype, status, system),
{
    let message = Message {
        header: Header::control(session_id, stype, status, system),
        body: Vec::new(),
    };
    assert(message@.body =~= Seq::empty());
    message
}

/// The control message that answers the request under `request`.
fn answer(request: Header, stype: SType, status: u8) -> (message: Message)
    ensures
        message@ == control_message(request.session_id, stype, status, request.system),
{
    control(request.session_id, stype, status, request.system)
}

impl ConnectionView {
    /// The origin URI of a message under `header` from the far end.
    pub open spec fn origin(self, header: Header) -> Seq<char> {
        "secs-gem://"@ + self.peer + "?session="@ + decimal(header.session_id as nat) + "&stream="@
            + decimal(header.stream as nat) + "&function="@ + decimal(header.function as nat)
    }

    /// The connection once it has used the next system bytes.
    pub open spec fn advanced(self) -> ConnectionView {
        ConnectionView { last_system: system_after(self.last_system), ..self }
    }
}

/// What the active side makes of what it read for an answer to its select:
/// the session id selected, or the reason why there is none.
pub open spec fn selection(read: Option<MessageView>) -> Result<u16, Error> {
    match read {
        Some(message) => if message.header.stype != SType::SelectRsp {
            Err(Error::SelectNotAnswered)
        } else if message.header.function != 0 {
            Err(Error::SelectRefused(message.header.function))
        } else {
            Ok(message.header.session_id)
        },
        None => Err(Error::SelectNotAnswered),
    }
}

/// What is done about what was read while the next data message is due.
pub open spec fn next_data_step(read: Option<MessageView>) -> StepView {
    match read {
        None => StepView { answer: None, next: NextView::Finished },
        Some(message) => match message.header.stype {
            SType::Data => StepView { answer: None, next: NextView::Deliver(message) },
            SType::LinktestReq => StepView {
                answer: Some(answer_to(message, SType::LinktestRsp, 0)),
                next: NextView::ReadOn,
            },
            SType::DeselectReq => StepView {
                answer: Some(answer_to(message, SType::DeselectRsp, 0)),
                next: NextView::Finished,
            },
            SType::SeparateReq => StepView { answer: None, next: NextView::Finished },
            SType::SelectReq => StepView {
                answer: Some(answer_to(message, SType::SelectRsp, 1)),
                next: NextView::ReadOn,
            },
            _ => StepView { answer: None, next: NextView::ReadOn },
        },
    }
}

/// What is done about what was read while the reply under the system bytes
/// `system` is due: what is done while any data message is, but that another
/// data message is passed over and an end is a failure.
pub open spec fn reply_step(system: u32, read: Option<MessageView>) -> StepView {
    let step = next_data_step(read);
    match step.next {
        NextView::Deliver(message) => if message.header.system == system {
            step
        } else {
            StepView { answer: step.answer, next: NextView::ReadOn }
        },
        NextView::Finished => StepView {
            answer: step.answer,
            next: NextView::Refused(Error::SeparatedBeforeReply),
        },
        _ => step,
    }
}

/// What is done about what was read while the answer to a linktest is due.
pub open spec fn linktest_step(read: Option<MessageView>) -> StepView {
    match read {
        None => StepView { answer: None, next: NextView::Refused(Error::ClosedDuringLinktest) },
        Some(message) => match message.header.stype {
            SType::LinktestRsp => StepView { answer: None, next: NextView::Finished },
            SType::LinktestReq => StepView {
                answer: Some(answer_to(message, SType::LinktestRsp, 0)),
                next: NextView::ReadOn,
            },
            _ => StepView { answer: None, next: NextView::ReadOn },
        },
    }
}

impl Selecting {
    /// Take what was read for an answer to Select.req: the connection it
    /// grants, under the session id it grants. Refused are anything but
    /// Select.rsp, and a status other than communication established; then
    /// there is no connection.
    pub fn selected(self, read: Option<Message>) -> (result: Result<Connection, Error>)
        ensures
            match selection(said(read)) {
                Ok(session_id) => {
                    &&& result matches Ok(connection)
                    &&& connection@ == (ConnectionView { session_id, ..self@ })
                },
                Err(refused) => result matches Err(error) && error == refused,
            },
    {
        let header = match read {
            Some(message) => message.header,
            None => {
                return Err(Error::SelectNotAnswered);
            },
        };
        if header.stype != SType::SelectRsp {
            return Err(Error::SelectNotAnswered);
        }
        if header.function != 0 {
            return Err(Error::SelectRefused(header.function));
        }
        let mut connection = self.connection;
        connection.session_id = header.session_id;
        Ok(connection)
    }
}

impl Connection {
    /// The active side of a connection to `peer`, not yet selected, and the
    /// Select.req for `session_id` that it opens with.
    pub fn connect(peer: String, session_id: u16) -> (opened: (Selecting, Message))
        ensures
            opened.0@ == (ConnectionView { peer: peer@, session_id, last_system: 1 }),
            opened.1@ == control_message(session_id, SType::SelectReq, 0, 1),
            opened.1.header.stype == SType::SelectReq && opened.1.header.session_id == session_id,
            opened.1.header.system == 1 && opened.1.body@.len() == 0,
    {
        let mut connection = Connection::over(peer, session_id);
        let system = connection.system();
        (Selecting { connection }, control(session_id, SType::SelectReq, 0, system))
    }

    /// The passive side of a connection to `peer` that opened with what was
    /// read, and the Select.rsp that grants its select. Refused is anything
    /// but Select.req.
    pub fn accept(peer: String, read: Option<Message>) -> (result: Result<
        (Connection, Message),
        Error,
    >)
        ensures
            match said(read) {
                Some(message) if message.header.stype == SType::SelectReq => {
                    &&& result matches Ok((connection, granted))
                    &&& connection@ == (ConnectionView {
                        peer: peer@,
                        session_id: message.header.session_id,
                        last_system: 0,
                    })
                    &&& granted@ == answer_to(message, SType::SelectRsp, 0)
                    &&& granted.header.stype == SType::SelectRsp && granted.header.function == 0
                    &&& granted.header.session_id == message.header.session_id
                    &&& granted.header.system == message.header.system
                    &&& granted.body@.len() == 0
                },
                _ => result matches Err(error) && error == Error::SelectNotOpened,
            },
    {
        let mut connection = Connection::over(peer, ANY_SESSION);
        match read {
            Some(message) if message.header.stype == SType::SelectReq => {
                let header = message.header;
                connection.session_id = header.session_id;
                Ok((connection, answer(header, SType::SelectRsp, 0)))
            },
            _ => Err(Error::SelectNotOpened),
        }
    }

    /// A connection that has used no system bytes, to be selected.
    fn over(peer: String, session_id: u16) -> (connection: Connection)
        ensures
            connection@ == (ConnectionView { peer: peer@, session_id, last_system: 0 }),
    {
        Connection { peer, session_id, next_system: 0 }
    }

    /// The far end's address.
    #[must_use]
    pub fn peer(&self) -> (peer: &str)
        ensures
            peer@ == self@.peer,
    {
        self.peer.as_str()
    }

    /// The session id selected.
    #[must_use]
    pub fn session_id(&self) -> (session_id: u16)
        ensures
            session_id == self@.session_id,
    {
        self.session_id
    }

    /// Where a data message on this connection came from, as an origin URI:
    /// `secs-gem://peer?session=1&stream=6&function=11`.
    #[must_use]
    pub fn origin(&self, header: &Header) -> (uri: String)
        ensures
            uri@ == self@.origin(*header),
    {
        let mut uri = "secs-gem://".to_owned();
        uri.append(self.peer.as_str());
        uri.append("?session=");
        push_numeral(&mut uri, header.session_id as u64, 10);
        uri.append("&stream=");
        push_numeral(&mut uri, header.stream as u64, 10);
        uri.append("&function=");
        push_numeral(&mut uri, header.function as u64, 10);
        uri
    }

    /// S`stream`F`function` with `body`, to be written; and, with `wait` set,
    /// the system bytes of the reply to wait for.
    pub fn send_data(&mut self, stream: u8, function: u8, wait: bool, body: &[u8]) -> (sent: (
        Message,
        Option<u32>,
    ))
        ensures
            final(self)@ == old(self)@.advanced(),
            sent.0@ == (MessageView {
                header: data_header(
                    old(self)@.session_id,
                    stream,
                    function,
                    wait,
                    final(self)@.last_system,
                ),
                body: body@,
            }),
            sent.0.header.stype == SType::Data && sent.0.header.ptype == 0,
            sent.0.header.session_id == old(self)@.session_id,
            sent.0.header.stream == stream % 128 && sent.0.header.function == function,
            sent.0.header.wait == wait && sent.0.header.system == final(self)@.last_system,
            sent.0.body@ == body@,
            sent.1 == if wait {
                Some(final(self)@.last_system)
            } else {
                None::<u32>
            },
    {
        let system = self.system();
        let message = Message {
            header: Header::data(self.session_id, stream, function, wait, system),
            body: slice_to_vec(body),
        };
        if !wait {
            return (message, None);
        }
        (message, Some(system))
    }

    /// What is done about what was read while the reply under the system
    /// bytes `system` is due. Linktest requests are answered on the way.
    pub fn await_reply(system: u32, read: Option<Message>) -> (step: Step)
        ensures
            step@ == reply_step(system, said(read)),
    {
        let step = Connection::next_data(read);
        let next = match step.next {
            Next::Deliver(message) => if message.header.system == system {
                Next::Deliver(message)
            } else {
                Next::ReadOn
            },
            Next::Finished => Next::Refused(Error::SeparatedBeforeReply),
            Next::ReadOn => Next::ReadOn,
            Next::Refused(error) => Next::Refused(error),
        };
        Step { answer: step.answer, next }
    }

    /// The answer to `primary` with `body`, under the next function up, to be
    /// written. Function 255 has no next.
    pub fn reply(primary: &Message, body: &[u8]) -> (message: Message)
        requires
            primary@.header.function < 255,
        ensures
            message@ == (MessageView { header: reply_header(primary@.header), body: body@ }),
            message.header.function == primary.header.function + 1 && !message.header.wait,
            message.header.stream == primary.header.stream,
            message.header.session_id == primary.header.session_id,
            message.header.system == primary.header.system,
            message.body@ == body@,
    {
        Message { header: primary.header.reply(), body: slice_to_vec(body) }
    }

    /// What is done about what was read while the next data message is due:
    /// it is delivered; linktest requests are answered, a second select is
    /// refused; and it is over when the peer separated, deselected or closed.
    pub fn next_data(read: Option<Message>) -> (step: Step)
        ensures
            step@ == next_data_step(said(read)),
    {
        let Some(message) = read else {
            return Step { answer: None, next: Next::Finished };
        };
        let header = message.header;
        match header.stype {
            SType::Data => Step { answer: None, next: Next::Deliver(message) },
            SType::LinktestReq => Step {
                answer: Some(answer(header, SType::LinktestRsp, 0)),
                next: Next::ReadOn,
            },
            SType::DeselectReq => Step {
                answer: Some(answer(header, SType::DeselectRsp, 0)),
                next: Next::Finished,
            },
            SType::SeparateReq => Step { answer: None, next: Next::Finished },
            SType::SelectReq => Step {
                answer: Some(answer(header, SType::SelectRsp, 1)),
                next: Next::ReadOn,
            },
            SType::LinktestRsp | SType::SelectRsp | SType::DeselectRsp | SType::RejectReq => Step {
                answer: None,
                next: Next::ReadOn,
            },
        }
    }

    /// A data message as it is handed up: its origin URI and its body.
    pub fn arrived(&self, message: Message) -> (arrived: (String, Vec<u8>))
        ensures
            arrived.0@ == self@.origin(message@.header),
            arrived.1@ == message@.body,
    {
        (self.origin(&message.header), message.body)
    }

    /// The one data message that was due, as it is handed up; refused where
    /// there was none.
    pub fn one_arrived(&self, taken: Option<Message>) -> (result: Result<(String, Vec<u8>), Error>)
        ensures
            match said(taken) {
                Some(message) => {
                    &&& result matches Ok((origin, body))
                    &&& origin@ == self@.origin(message.header)
                    &&& body@ == message.body
                },
                None => result matches Err(error) && error == Error::SeparatedWithoutMessage,
            },
    {
        match taken {
            Some(message) => Ok(self.arrived(message)),
            None => Err(Error::SeparatedWithoutMessage),
        }
    }

    /// The Linktest.req that asks whether the peer is still there, to be
    /// written.
    pub fn linktest(&mut self) -> (message: Message)
        ensures
            final(self)@ == old(self)@.advanced(),
            message@ == control_message(
                old(self)@.session_id,
                SType::LinktestReq,
                0,
                final(self)@.last_system,
            ),
            message.header.stype == SType::LinktestReq && message.body@.len() == 0,
            message.header.session_id == old(self)@.session_id,
            message.header.system == final(self)@.last_system,
    {
        let system = self.system();
        control(self.session_id, SType::LinktestReq, 0, system)
    }

    /// What is done about what was read while the peer has not said that it
    /// is still there.
    pub fn await_linktest(read: Option<Message>) -> (step: Step)
        ensures
            step@ == linktest_step(said(read)),
    {
        match read {
            Some(message) if message.header.stype == SType::LinktestRsp => Step {
                answer: None,
                next: Next::Finished,
            },
            Some(message) if message.header.stype == SType::LinktestReq => Step {
                answer: Some(answer(message.header, SType::LinktestRsp, 0)),
                next: Next::ReadOn,
            },
            Some(_) => Step { answer: None, next: Next::ReadOn },
            None => Step { answer: None, next: Next::Refused(Error::ClosedDuringLinktest) },
        }
    }

    /// The Separate.req that ends the session, to be written.
    pub fn separate(self) -> (message: Message)
        ensures
            message@ == control_message(
                self@.session_id,
                SType::SeparateReq,
                0,
                self@.advanced().last_system,
            ),
            message.header.stype == SType::SeparateReq && message.body@.len() == 0,
            message.header.session_id == self@.session_id,
            message.header.system == self@.advanced().last_system,
    {
        let mut connection = self;
        let system = connection.system();
        control(connection.session_id, SType::SeparateReq, 0, system)
    }

    /// The system bytes of the next message that wants an answer, which are
    /// used with that.
    pub fn system(&mut self) -> (system: u32)
        ensures
            final(self)@ == old(self)@.advanced(),
            system == final(self)@.last_system,
            system == (old(self)@.last_system + 1) % 0x1_0000_0000,
    {
        self.next_system = self.next_system.wrapping_add(1);
        self.next_system
    }
}

} // verus!
