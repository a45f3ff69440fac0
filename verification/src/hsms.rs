//! HSMS, SEMI E37: the message as TCP carries it — a four-byte length, a
//! ten-byte header, and the SECS-II body.
//!
//! The header: session id (2), stream with the wait bit on top (1), function
//! (1), presentation type (1, always 0 for SECS-II), session type (1), and
//! the system bytes (4) that pair a reply with its primary. Control messages
//! — select, deselect, linktest, reject, separate — carry no body, and their
//! bytes 2 and 3 hold a status instead of stream and function; the same two
//! fields carry it here.

use crate::error::Error;
use crate::wire;
use crate::wire::{be_bytes, be_value};
use vstd::prelude::*;
use vstd::slice::{slice_subrange, slice_to_vec};

verus! {

/// The header, always.
pub const HEADER_LEN: usize = 10;

/// The most a message may say it is before it is refused.
pub const MAX_MESSAGE: usize = 16 * 1024 * 1024;

/// Session type: what kind of message the header is.
#[derive(Clone, Copy, Debug, PartialEq, Eq, Structural)]
pub enum SType {
    /// A data message: stream, function and a SECS-II body.
    Data,
    SelectReq,
    SelectRsp,
    DeselectReq,
    DeselectRsp,
    LinktestReq,
    LinktestRsp,
    RejectReq,
    SeparateReq,
}

impl SType {
    /// The number E37 gives this session type.
    pub open spec fn code(self) -> u8 {
        match self {
            SType::Data => 0,
            SType::SelectReq => 1,
            SType::SelectRsp => 2,
            SType::DeselectReq => 3,
            SType::DeselectRsp => 4,
            SType::LinktestReq => 5,
            SType::LinktestRsp => 6,
            SType::RejectReq => 7,
            SType::SeparateReq => 9,
        }
    }

    /// The session type E37 gives the number `byte`, if it gives it to one.
    pub open spec fn with_code(byte: u8) -> Option<SType> {
        match byte {
            0 => Some(SType::Data),
            1 => Some(SType::SelectReq),
            2 => Some(SType::SelectRsp),
            3 => Some(SType::DeselectReq),
            4 => Some(SType::DeselectRsp),
            5 => Some(SType::LinktestReq),
            6 => Some(SType::LinktestRsp),
            7 => Some(SType::RejectReq),
            9 => Some(SType::SeparateReq),
            _ => None,
        }
    }

    /// From the byte on the wire; refused where E37 does not define it.
    pub fn from_byte(byte: u8) -> (result: Result<SType, Error>)
        ensures
            result == match SType::with_code(byte) {
                Some(stype) => Ok::<SType, Error>(stype),
                None => Err::<SType, Error>(Error::UnknownSessionType(byte)),
            },
    {
        Ok(match byte {
            0 => SType::Data,
            1 => SType::SelectReq,
            2 => SType::SelectRsp,
            3 => SType::DeselectReq,
            4 => SType::DeselectRsp,
            5 => SType::LinktestReq,
            6 => SType::LinktestRsp,
            7 => SType::RejectReq,
            9 => SType::SeparateReq,
            other => {
                return Err(Error::UnknownSessionType(other));
            },
        })
    }

    /// The byte on the wire.
    #[must_use]
    pub fn byte(self) -> (byte: u8)
        ensures
            byte == self.code(),
    {
        match self {
            SType::Data => 0,
            SType::SelectReq => 1,
            SType::SelectRsp => 2,
            SType::DeselectReq => 3,
            SType::DeselectRsp => 4,
            SType::LinktestReq => 5,
            SType::LinktestRsp => 6,
            SType::RejectReq => 7,
            SType::SeparateReq => 9,
        }
    }
}

/// The ten bytes.
#[derive(Clone, Copy, Debug, PartialEq, Eq, Structural)]
pub struct Header {
    pub session_id: u16,
    /// Stream on a data message; the high status byte on a control one.
    pub stream: u8,
    /// The wait bit of a data message: a reply is expected.
    pub wait: bool,
    /// Function on a data message; the status on a control one.
    pub function: u8,
    pub ptype: u8,
    pub stype: SType,
    pub system: u32,
}

/// The header of a data message: the low seven bits of `stream`, no
/// presentation type.
pub open spec fn data_header(
    session_id: u16,
    stream: u8,
    function: u8,
    wait: bool,
    system: u32,
) -> Header {
    Header {
        session_id,
        stream: stream % 128,
        wait,
        function,
        ptype: 0,
        stype: SType::Data,
        system,
    }
}

/// The header of a control message: `status` where the function would be.
pub open spec fn control_header(session_id: u16, stype: SType, status: u8, system: u32) -> Header {
    Header { session_id, stream: 0, wait: false, function: status, ptype: 0, stype, system }
}

/// The header of the reply to a message under `primary`: one function up, no
/// wait bit, all else the same.
pub open spec fn reply_header(primary: Header) -> Header {
    Header { wait: false, function: (primary.function + 1) as u8, ..primary }
}

impl Header {
    /// Whether byte 2 tells all that the header says in it: on a data message
    /// a stream that leaves the top bit to the wait bit, on a control one a
    /// status and no wait bit.
    pub open spec fn stream_fits(self) -> bool {
        if self.stype == SType::Data {
            self.stream < 128
        } else {
            !self.wait
        }
    }

    /// Byte 2: the stream or status, its top bit set where the wait bit is.
    pub open spec fn stream_byte(self) -> u8 {
        if self.wait && self.stream < 128 {
            (self.stream + 128) as u8
        } else {
            self.stream
        }
    }

    /// The ten bytes.
    pub open spec fn bytes(self) -> Seq<u8> {
        be_bytes(self.session_id as nat, 2) + seq![
            self.stream_byte(),
            self.function,
            self.ptype,
            self.stype.code(),
        ] + be_bytes(self.system as nat, 4)
    }

    /// A data message header, S`stream`F`function`.
    #[must_use]
    pub fn data(session_id: u16, stream: u8, function: u8, wait: bool, system: u32) -> (header:
        Header)
        ensures
            header == data_header(session_id, stream, function, wait, system),
            header.stream_fits(),
            header.stype == SType::Data && header.ptype == 0,
            header.session_id == session_id && header.system == system,
            header.stream == stream % 128 && header.function == function && header.wait == wait,
    {
        assert(stream & 0x7F == stream % 128) by (bit_vector);
        Header { session_id, stream: stream & 0x7F, wait, function, ptype: 0, stype: SType::Data, system }
    }

    /// A control message header with `status` in byte 3.
    #[must_use]
    pub fn control(session_id: u16, stype: SType, status: u8, system: u32) -> (header: Header)
        ensures
            header == control_header(session_id, stype, status, system),
            header.stream_fits(),
            header.stype == stype && header.ptype == 0,
            header.session_id == session_id && header.system == system,
            header.stream == 0 && header.function == status && !header.wait,
    {
        Header { session_id, stream: 0, wait: false, function: status, ptype: 0, stype, system }
    }

    /// The header for the reply to this primary: the next function up, the
    /// wait bit clear, the same system bytes. Function 255 has no next.
    #[must_use]
    pub fn reply(self) -> (header: Header)
        requires
            self.function < 255,
        ensures
            header == reply_header(self),
            header.stype == self.stype && header.ptype == self.ptype,
            header.session_id == self.session_id && header.system == self.system,
            header.stream == self.stream && header.function == self.function + 1 && !header.wait,
    {
        Header {
            session_id: self.session_id,
            stream: self.stream,
            wait: false,
            function: self.function + 1,
            ptype: self.ptype,
            stype: self.stype,
            system: self.system,
        }
    }
}

/// One message, header and body.
#[derive(Clone, Debug, PartialEq, Eq)]
pub struct Message {
    pub header: Header,
    pub body: Vec<u8>,
}

/// What a message says, its body as a sequence of bytes.
pub struct MessageView {
    pub header: Header,
    pub body: Seq<u8>,
}

impl View for Message {
    type V = MessageView;

    open spec fn view(&self) -> MessageView {
        MessageView { header: self.header, body: self.body@ }
    }
}

impl MessageView {
    /// What the length prefix says: header and body together, as far as four
    /// bytes can.
    pub open spec fn length(self) -> nat {
        if HEADER_LEN + self.body.len() <= u32::MAX {
            HEADER_LEN as nat + self.body.len()
        } else {
            u32::MAX as nat
        }
    }

    /// The message on the wire, length prefix first.
    pub open spec fn bytes(self) -> Seq<u8> {
        be_bytes(self.length(), 4) + self.header.bytes() + self.body
    }

    /// Whether a reader takes the message as it was: byte 2 tells stream and
    /// wait bit apart, and there are no more bytes than are read.
    pub open spec fn readable(self) -> bool {
        self.header.stream_fits() && HEADER_LEN + self.body.len() <= MAX_MESSAGE
    }
}

/// Write one message to the end of `writer`, length prefix first.
pub fn write_message(writer: &mut Vec<u8>, message: &Message)
    ensures
        final(writer)@ == old(writer)@ + message@.bytes(),
{
    let header = message.header;
    let length: u64 = if message.body.len() <= u32::MAX as usize - HEADER_LEN {
        HEADER_LEN as u64 + message.body.len() as u64
    } else {
        u32::MAX as u64
    };
    let stream = header.stream | if header.wait {
        0x80
    } else {
        0
    };
    proof {
        let s = header.stream;
        assert(s | 0 == s) by (bit_vector);
        assert(s < 128 ==> s | 0x80 == s + 128) by (bit_vector);
        assert(s >= 128 ==> s | 0x80 == s) by (bit_vector);
    }
    wire::put(writer, length, 4);
    wire::put(writer, header.session_id as u64, 2);
    writer.push(stream);
    writer.push(header.function);
    writer.push(header.ptype);
    writer.push(header.stype.byte());
    wire::put(writer, header.system as u64, 4);
    writer.extend_from_slice(message.body.as_slice());
    assert(writer@ =~= old(writer)@ + message@.bytes());
}

/// `message` as bytes on the wire, length prefix included.
#[must_use]
pub fn encode(message: &Message) -> (bytes: Vec<u8>)
    ensures
        bytes@ == message@.bytes(),
{
    let mut bytes: Vec<u8> = Vec::new();
    write_message(&mut bytes, message);
    assert(bytes@ =~= message@.bytes());
    bytes
}

/// What the length prefix `prefix` lets a reader read: that many bytes, or
/// the reason why none.
pub open spec fn length_of(prefix: Seq<u8>) -> Result<nat, Error> {
    let length = be_value(prefix);
    if length < HEADER_LEN {
        Err(Error::ShorterThanHeader)
    } else if length > MAX_MESSAGE {
        Err(Error::OverMaxMessage)
    } else {
        Ok(length)
    }
}

/// How many bytes follow the length prefix `prefix`: no fewer than a header,
/// no more than [`MAX_MESSAGE`].
pub fn message_length(prefix: [u8; 4]) -> (result: Result<usize, Error>)
    ensures
        match result {
            Ok(length) => length_of(prefix@) == Ok::<nat, Error>(length as nat),
            Err(error) => length_of(prefix@) == Err::<nat, Error>(error),
        },
{
    let length = wire::get(prefix.as_slice(), 0, 4);
    assert(prefix@.subrange(0, 4) =~= prefix@);
    if length < HEADER_LEN as u64 {
        return Err(Error::ShorterThanHeader);
    }
    if length > MAX_MESSAGE as u64 {
        return Err(Error::OverMaxMessage);
    }
    Ok(length as usize)
}

/// The message of session type `stype` that `frame` holds: its first ten
/// bytes as the header, the rest as the body. Byte 2 is stream and wait bit on
/// a data message, and all of it the high status byte on a control one.
pub open spec fn message_in(frame: Seq<u8>, stype: SType) -> MessageView {
    MessageView {
        header: Header {
            session_id: be_value(frame.subrange(0, 2)) as u16,
            stream: if stype == SType::Data {
                frame[2] % 128
            } else {
                frame[2]
            },
            wait: stype == SType::Data && frame[2] >= 128,
            function: frame[3],
            ptype: frame[4],
            stype,
            system: be_value(frame.subrange(6, 10)) as u32,
        },
        body: frame.skip(HEADER_LEN as int),
    }
}

/// What the bytes behind a length prefix hold: a message, or the reason why
/// none.
pub open spec fn frame_message(frame: Seq<u8>) -> Result<MessageView, Error> {
    if frame.len() < HEADER_LEN {
        Err(Error::ShorterThanHeader)
    } else {
        match SType::with_code(frame[5]) {
            Some(stype) => Ok(message_in(frame, stype)),
            None => Err(Error::UnknownSessionType(frame[5])),
        }
    }
}

/// The message in `frame`, the bytes behind its length prefix.
pub fn decode(frame: &[u8]) -> (result: Result<Message, Error>)
    ensures
        match result {
            Ok(message) => frame_message(frame@) == Ok::<MessageView, Error>(message@),
            Err(error) => frame_message(frame@) == Err::<MessageView, Error>(error),
        },
{
    if frame.len() < HEADER_LEN {
        return Err(Error::ShorterThanHeader);
    }
    proof {
        wire::capacities();
        let b = frame@[2];
        assert(b & 0x7F == b % 128) by (bit_vector);
        assert((b & 0x80 != 0) == (b >= 128)) by (bit_vector);
    }
    let session_id = wire::get(frame, 0, 2) as u16;
    let stype = match SType::from_byte(frame[5]) {
        Ok(stype) => stype,
        Err(error) => {
            return Err(error);
        },
    };
    let (stream, wait) = if stype == SType::Data {
        (frame[2] & 0x7F, frame[2] & 0x80 != 0)
    } else {
        (frame[2], false)
    };
    let system = wire::get(frame, 6, 4) as u32;
    let body = slice_to_vec(slice_subrange(frame, HEADER_LEN, frame.len()));
    let message = Message {
        header: Header {
            session_id,
            stream,
            wait,
            function: frame[3],
            ptype: frame[4],
            stype,
            system,
        },
        body,
    };
    assert(message@.body =~= frame@.skip(HEADER_LEN as int));
    Ok(message)
}

/// What the next message in `bytes` is, `None` where they have ended, or the
/// reason why none can be read.
pub open spec fn next_message(bytes: Seq<u8>) -> Result<Option<MessageView>, Error> {
    if bytes.len() == 0 {
        Ok(None)
    } else if bytes.len() < 4 {
        Err(Error::CutInMessageLength)
    } else {
        match length_of(bytes.take(4)) {
            Err(error) => Err(error),
            Ok(length) => if bytes.len() < 4 + length {
                Err(Error::CutInMessage)
            } else {
                match frame_message(bytes.subrange(4, 4 + length as int)) {
                    Ok(message) => Ok(Some(message)),
                    Err(error) => Err(error),
                }
            },
        }
    }
}

/// What `bytes` hold behind what reading the next message takes: a message
/// with its prefix, the prefix alone where its length is refused, all where
/// the message is cut off.
pub open spec fn after_message(bytes: Seq<u8>) -> Seq<u8> {
    if bytes.len() < 4 {
        Seq::empty()
    } else {
        match length_of(bytes.take(4)) {
            Err(_) => bytes.skip(4),
            Ok(length) => if bytes.len() < 4 + length {
                Seq::empty()
            } else {
                bytes.skip(4 + length as int)
            },
        }
    }
}

/// Read one message from the front of `reader`, or `None` where it ended
/// between messages.
pub fn read_message(reader: &mut &[u8]) -> (result: Result<Option<Message>, Error>)
    ensures
        match result {
            Ok(Some(message)) => next_message(old(reader)@) == Ok::<Option<MessageView>, Error>(
                Some(message@),
            ),
            Ok(None) => next_message(old(reader)@) == Ok::<Option<MessageView>, Error>(None),
            Err(error) => next_message(old(reader)@) == Err::<Option<MessageView>, Error>(error),
        },
        final(reader)@ == after_message(old(reader)@),
{
    let bytes: &[u8] = *reader;
    let end = bytes.len();
    if end == 0 {
        return Ok(None);
    }
    if end < 4 {
        *reader = slice_subrange(bytes, end, end);
        return Err(Error::CutInMessageLength);
    }
    let prefix = [bytes[0], bytes[1], bytes[2], bytes[3]];
    assert(prefix@ =~= bytes@.take(4));
    let length = match message_length(prefix) {
        Ok(length) => length,
        Err(error) => {
            *reader = slice_subrange(bytes, 4, end);
            return Err(error);
        },
    };
    if end - 4 < length {
        *reader = slice_subrange(bytes, end, end);
        return Err(Error::CutInMessage);
    }
    *reader = slice_subrange(bytes, 4 + length, end);
    match decode(slice_subrange(bytes, 4, 4 + length)) {
        Ok(message) => Ok(Some(message)),
        Err(error) => Err(error),
    }
}

/// A session type is read back from its byte.
pub proof fn stype_read_back(stype: SType)
    ensures
        SType::with_code(stype.code()) == Some(stype),
{
}

/// A session type that is read from a byte is written as that byte.
pub proof fn stype_written_back(byte: u8)
    ensures
        SType::with_code(byte) matches Some(stype) ==> stype.code() == byte,
{
}

/// Where the fields of a message stand in its bytes.
proof fn message_layout(message: MessageView)
    ensures
        message.bytes().len() == 4 + HEADER_LEN + message.body.len(),
        message.bytes().take(4) == be_bytes(message.length(), 4),
        message.bytes().skip(4) == message.header.bytes() + message.body,
        message.header.bytes().len() == HEADER_LEN,
        message.header.bytes().subrange(0, 2) == be_bytes(message.header.session_id as nat, 2),
        message.header.bytes()[2] == message.header.stream_byte(),
        message.header.bytes()[3] == message.header.function,
        message.header.bytes()[4] == message.header.ptype,
        message.header.bytes()[5] == message.header.stype.code(),
        message.header.bytes().subrange(6, 10) == be_bytes(message.header.system as nat, 4),
{
    wire::be_bytes_len(message.length(), 4);
    wire::be_bytes_len(message.header.session_id as nat, 2);
    wire::be_bytes_len(message.header.system as nat, 4);
    assert(message.bytes().take(4) =~= be_bytes(message.length(), 4));
    assert(message.bytes().skip(4) =~= message.header.bytes() + message.body);
    assert(message.header.bytes().subrange(0, 2) =~= be_bytes(
        message.header.session_id as nat,
        2,
    ));
    assert(message.header.bytes().subrange(6, 10) =~= be_bytes(message.header.system as nat, 4));
}

/// Header and body are what their bytes hold.
proof fn frame_read_back(message: MessageView)
    requires
        message.header.stream_fits(),
    ensures
        frame_message(message.header.bytes() + message.body) == Ok::<MessageView, Error>(message),
{
    let frame = message.header.bytes() + message.body;
    message_layout(message);
    wire::capacities();
    assert(frame.subrange(0, 2) =~= message.header.bytes().subrange(0, 2));
    assert(frame.subrange(6, 10) =~= message.header.bytes().subrange(6, 10));
    assert(frame.skip(HEADER_LEN as int) =~= message.body);
    wire::be_value_of_bytes(message.header.session_id as nat, 2);
    wire::be_value_of_bytes(message.header.system as nat, 4);
    stype_read_back(message.header.stype);
    assert(message_in(frame, message.header.stype).header == message.header);
}

/// A message that was written is read back as it was, and what follows it is
/// left: this holds of every message that is no longer than [`MAX_MESSAGE`],
/// a data message whose stream leaves the wait bit alone or a control message,
/// which has a status and no wait bit.
pub proof fn message_read_back(message: MessageView, rest: Seq<u8>)
    requires
        message.readable(),
    ensures
        next_message(message.bytes() + rest) == Ok::<Option<MessageView>, Error>(Some(message)),
        after_message(message.bytes() + rest) == rest,
{
    let bytes = message.bytes() + rest;
    message_layout(message);
    wire::capacities();
    wire::be_value_of_bytes(message.length(), 4);
    assert(bytes.take(4) =~= message.bytes().take(4));
    assert(bytes.subrange(4, 4 + message.length() as int) =~= message.bytes().skip(4));
    frame_read_back(message);
    assert(bytes.skip(4 + message.length() as int) =~= rest);
}

/// A message that says more than [`MAX_MESSAGE`] of itself is refused, header
/// and body unread.
pub proof fn longer_message_refused(message: MessageView, rest: Seq<u8>)
    requires
        HEADER_LEN + message.body.len() > MAX_MESSAGE,
    ensures
        next_message(message.bytes() + rest) == Err::<Option<MessageView>, Error>(
            Error::OverMaxMessage,
        ),
        after_message(message.bytes() + rest) == message.header.bytes() + message.body + rest,
{
    message_layout(message);
    wire::capacities();
    wire::be_value_of_bytes(message.length(), 4);
    assert((message.bytes() + rest).take(4) =~= message.bytes().take(4));
    assert((message.bytes() + rest).skip(4) =~= message.header.bytes() + message.body + rest);
}

/// A message that is cut off anywhere is refused: no part of it but all of
/// it, or none, passes for a message or for the end between messages.
pub proof fn cut_message_refused(message: MessageView, count: int)
    requires
        message.readable(),
        0 < count < message.bytes().len(),
    ensures
        next_message(message.bytes().take(count)) == Err::<Option<MessageView>, Error>(
            if count < 4 {
                Error::CutInMessageLength
            } else {
                Error::CutInMessage
            },
        ),
{
    let bytes = message.bytes().take(count);
    message_layout(message);
    wire::capacities();
    wire::be_value_of_bytes(message.length(), 4);
    if count >= 4 {
        assert(bytes.take(4) =~= message.bytes().take(4));
    }
}

/// A message that was read is written as the bytes it was read from: reading
/// loses nothing.
pub proof fn message_written_back(bytes: Seq<u8>)
    ensures
        next_message(bytes) matches Ok(Some(message)) ==> {
            &&& message.readable()
            &&& message.bytes() + after_message(bytes) == bytes
        },
{
    if let Ok(Some(message)) = next_message(bytes) {
        let length = be_value(bytes.take(4));
        let frame = bytes.subrange(4, 4 + length as int);
        stype_written_back(frame[5]);
        wire::capacities();
        wire::be_value_bound(frame.subrange(0, 2));
        wire::be_value_bound(frame.subrange(6, 10));
        wire::be_bytes_of_value(bytes.take(4));
        wire::be_bytes_of_value(frame.subrange(0, 2));
        wire::be_bytes_of_value(frame.subrange(6, 10));
        assert(message.body.len() == length - HEADER_LEN);
        assert(message.header.stream_byte() == frame[2]);
        assert(message.header.bytes() =~= frame.take(10));
        assert(message.header.bytes() + message.body =~= frame);
        assert(message.bytes() + after_message(bytes) =~= bytes);
    }
}

/// `messages` on the wire, one behind the other.
pub open spec fn stream_bytes(messages: Seq<MessageView>) -> Seq<u8>
    decreases messages.len(),
{
    if messages.len() == 0 {
        Seq::empty()
    } else {
        messages[0].bytes() + stream_bytes(messages.skip(1))
    }
}

/// What `bytes` hold behind the first `count` messages.
pub open spec fn after_messages(bytes: Seq<u8>, count: nat) -> Seq<u8>
    decreases count,
{
    if count == 0 {
        bytes
    } else {
        after_messages(after_message(bytes), (count - 1) as nat)
    }
}

/// Messages that were written one behind the other are read back one by one,
/// in order, and then the reader has come to what follows them.
pub proof fn messages_read_back(messages: Seq<MessageView>, rest: Seq<u8>, index: int)
    requires
        forall|i: int| 0 <= i < messages.len() ==> (#[trigger] messages[i]).readable(),
        0 <= index <= messages.len(),
    ensures
        after_messages(stream_bytes(messages) + rest, messages.len()) == rest,
        index < messages.len() ==> next_message(
            after_messages(stream_bytes(messages) + rest, index as nat),
        ) == Ok::<Option<MessageView>, Error>(Some(messages[index])),
    decreases messages.len(),
{
    if messages.len() == 0 {
        assert(stream_bytes(messages) + rest =~= rest);
    } else {
        let later = messages.skip(1);
        let after = stream_bytes(later) + rest;
        assert(stream_bytes(messages) + rest =~= messages[0].bytes() + after);
        message_read_back(messages[0], after);
        assert forall|i: int| 0 <= i < later.len() implies (#[trigger] later[i]).readable() by {
            assert(later[i] == messages[i + 1]);
        }
        messages_read_back(
            later,
            rest,
            if index == 0 {
                0
            } else {
                index - 1
            },
        );
    }
}

} // verus!
