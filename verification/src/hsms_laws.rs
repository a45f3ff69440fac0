//! What each byte of an HSMS message is, and what each byte of one is read
//! as.

use crate::error::Error;
use crate::hsms::{
    after_message, control_header, data_header, frame_message, length_of, message_in,
    next_message, reply_header, Header, Message, MessageView, SType,
};
use crate::wire;
use vstd::prelude::*;

verus! {

/// The numbers E37 gives the session types, and which it gives to none.
pub proof fn session_type_numbers(byte: u8)
    ensures
        SType::Data.code() == 0,
        SType::SelectReq.code() == 1,
        SType::SelectRsp.code() == 2,
        SType::DeselectReq.code() == 3,
        SType::DeselectRsp.code() == 4,
        SType::LinktestReq.code() == 5,
        SType::LinktestRsp.code() == 6,
        SType::RejectReq.code() == 7,
        SType::SeparateReq.code() == 9,
        SType::with_code(0) == Some(SType::Data),
        SType::with_code(1) == Some(SType::SelectReq),
        SType::with_code(2) == Some(SType::SelectRsp),
        SType::with_code(3) == Some(SType::DeselectReq),
        SType::with_code(4) == Some(SType::DeselectRsp),
        SType::with_code(5) == Some(SType::LinktestReq),
        SType::with_code(6) == Some(SType::LinktestRsp),
        SType::with_code(7) == Some(SType::RejectReq),
        SType::with_code(9) == Some(SType::SeparateReq),
        SType::with_code(byte) is None <==> byte == 8 || byte > 9,
{
}

/// A message says its header and its body.
pub proof fn message_says(message: Message)
    ensures
        message@.header == message.header,
        message@.body == message.body@,
{
}

/// A data header says what it was made of, the stream in seven bits.
pub proof fn data_header_says(session_id: u16, stream: u8, function: u8, wait: bool, system: u32)
    ensures
        ({
            let header = data_header(session_id, stream, function, wait, system);
            &&& header.session_id == session_id
            &&& stream < 128 ==> header.stream == stream
            &&& stream >= 128 ==> header.stream == stream - 128
            &&& header.wait == wait
            &&& header.function == function
            &&& header.ptype == 0
            &&& header.stype == SType::Data
            &&& header.system == system
        }),
{
}

/// A control header says what it was made of: the status where a function
/// would be, and neither stream nor wait bit.
pub proof fn control_header_says(session_id: u16, stype: SType, status: u8, system: u32)
    ensures
        ({
            let header = control_header(session_id, stype, status, system);
            &&& header.session_id == session_id
            &&& header.stream == 0
            &&& !header.wait
            &&& header.function == status
            &&& header.ptype == 0
            &&& header.stype == stype
            &&& header.system == system
        }),
{
}

/// A reply is under the next function up with the wait bit clear; all else is
/// its primary's.
pub proof fn reply_header_says(primary: Header)
    requires
        primary.function < 255,
    ensures
        ({
            let header = reply_header(primary);
            &&& header.session_id == primary.session_id
            &&& header.stream == primary.stream
            &&& !header.wait
            &&& header.function == primary.function + 1
            &&& header.ptype == primary.ptype
            &&& header.stype == primary.stype
            &&& header.system == primary.system
        }),
{
}

/// The ten bytes of a header, one by one.
pub proof fn header_bytes_are(header: Header)
    ensures
        header.bytes().len() == 10,
        header.bytes()[0] == header.session_id / 0x100,
        header.bytes()[1] == header.session_id % 0x100,
        header.bytes()[2] == if header.wait && header.stream < 128 {
            header.stream + 128
        } else {
            header.stream as int
        },
        header.bytes()[3] == header.function,
        header.bytes()[4] == header.ptype,
        header.bytes()[5] == match header.stype {
            SType::Data => 0int,
            SType::SelectReq => 1,
            SType::SelectRsp => 2,
            SType::DeselectReq => 3,
            SType::DeselectRsp => 4,
            SType::LinktestReq => 5,
            SType::LinktestRsp => 6,
            SType::RejectReq => 7,
            SType::SeparateReq => 9,
        },
        header.bytes()[6] == header.system / 0x100_0000,
        header.bytes()[7] == header.system / 0x1_0000 % 0x100,
        header.bytes()[8] == header.system / 0x100 % 0x100,
        header.bytes()[9] == header.system % 0x100,
{
    wire::bytes_by_place(header.session_id as nat);
    wire::bytes_by_place(header.system as nat);
}

/// The bytes of a message, one by one: four that say how many follow, the ten
/// of its header, and its body.
pub proof fn message_bytes_are(message: MessageView, i: int)
    ensures
        message.bytes().len() == 14 + message.body.len(),
        ({
            let following = 10 + message.body.len();
            let said = if following <= 0xFFFF_FFFF {
                following
            } else {
                0xFFFF_FFFF
            };
            &&& message.bytes()[0] == said / 0x100_0000
            &&& message.bytes()[1] == said / 0x1_0000 % 0x100
            &&& message.bytes()[2] == said / 0x100 % 0x100
            &&& message.bytes()[3] == said % 0x100
        }),
        0 <= i < 10 ==> message.bytes()[4 + i] == message.header.bytes()[i],
        0 <= i < message.body.len() ==> message.bytes()[14 + i] == message.body[i],
{
    header_bytes_are(message.header);
    wire::bytes_by_place(message.length());
}

/// How many bytes the four of a length prefix let a reader read: ten at least,
/// 16 MiB at most.
pub proof fn length_said(prefix: Seq<u8>)
    requires
        prefix.len() == 4,
    ensures
        ({
            let said = 0x100_0000 * prefix[0] + 0x1_0000 * prefix[1] + 0x100 * prefix[2]
                + prefix[3];
            &&& said < 10 ==> length_of(prefix) == Err::<nat, Error>(Error::ShorterThanHeader)
            &&& 10 <= said <= 16_777_216 ==> length_of(prefix) == Ok::<nat, Error>(said as nat)
            &&& said > 16_777_216 ==> length_of(prefix) == Err::<nat, Error>(
                Error::OverMaxMessage,
            )
        }),
{
    wire::value_by_place(prefix);
}

/// What the bytes behind a length prefix are read as, field by field; refused
/// are fewer than a header and a session type that E37 gives no number.
pub proof fn frame_says(frame: Seq<u8>, i: int)
    ensures
        frame.len() < 10 ==> frame_message(frame) == Err::<MessageView, Error>(
            Error::ShorterThanHeader,
        ),
        frame.len() >= 10 && (frame[5] == 8 || frame[5] > 9) ==> frame_message(frame) == Err::<
            MessageView,
            Error,
        >(Error::UnknownSessionType(frame[5])),
        frame.len() >= 10 && !(frame[5] == 8 || frame[5] > 9) ==> {
            &&& frame_message(frame) matches Ok(message)
            &&& message.header.session_id == 0x100 * frame[0] + frame[1]
            &&& frame[5] == 0 && frame[2] < 128 ==> message.header.stream == frame[2]
                && !message.header.wait
            &&& frame[5] == 0 && frame[2] >= 128 ==> message.header.stream == frame[2] - 128
                && message.header.wait
            &&& frame[5] != 0 ==> message.header.stream == frame[2] && !message.header.wait
            &&& message.header.function == frame[3]
            &&& message.header.ptype == frame[4]
            &&& message.header.stype == match frame[5] {
                0 => SType::Data,
                1 => SType::SelectReq,
                2 => SType::SelectRsp,
                3 => SType::DeselectReq,
                4 => SType::DeselectRsp,
                5 => SType::LinktestReq,
                6 => SType::LinktestRsp,
                7 => SType::RejectReq,
                _ => SType::SeparateReq,
            }
            &&& message.header.system == 0x100_0000 * frame[6] + 0x1_0000 * frame[7] + 0x100
                * frame[8] + frame[9]
            &&& message.body.len() == frame.len() - 10
            &&& 0 <= i < message.body.len() ==> message.body[i] == frame[10 + i]
        },
{
    if frame.len() >= 10 {
        session_type_numbers(frame[5]);
        let session = frame.subrange(0, 2);
        let system = frame.subrange(6, 10);
        wire::value_by_place(session);
        wire::value_by_place(system);
        assert(session[0] == frame[0] && session[1] == frame[1]);
        assert(system[0] == frame[6] && system[1] == frame[7] && system[2] == frame[8]
            && system[3] == frame[9]);
        if let Some(stype) = SType::with_code(frame[5]) {
            assert(message_in(frame, stype).body == frame.skip(10));
        }
    }
}

/// What a reader makes of bytes: it ends where there are none; it refuses a
/// prefix that is cut off or says too little or too much, and a message that
/// is cut off; else it reads as many bytes as the prefix says, by
/// [`frame_says`], and is left behind them.
pub proof fn bytes_read(bytes: Seq<u8>)
    ensures
        bytes.len() == 0 ==> next_message(bytes) == Ok::<Option<MessageView>, Error>(None)
            && after_message(bytes).len() == 0,
        0 < bytes.len() < 4 ==> next_message(bytes) == Err::<Option<MessageView>, Error>(
            Error::CutInMessageLength,
        ) && after_message(bytes).len() == 0,
        bytes.len() >= 4 ==> ({
            let said = 0x100_0000 * bytes[0] + 0x1_0000 * bytes[1] + 0x100 * bytes[2] + bytes[3];
            &&& said < 10 ==> next_message(bytes) == Err::<Option<MessageView>, Error>(
                Error::ShorterThanHeader,
            ) && after_message(bytes) == bytes.skip(4)
            &&& said > 16_777_216 ==> next_message(bytes) == Err::<Option<MessageView>, Error>(
                Error::OverMaxMessage,
            ) && after_message(bytes) == bytes.skip(4)
            &&& 10 <= said <= 16_777_216 && bytes.len() < 4 + said ==> next_message(bytes) == Err::<
                Option<MessageView>,
                Error,
            >(Error::CutInMessage) && after_message(bytes).len() == 0
            &&& 10 <= said <= 16_777_216 && bytes.len() >= 4 + said ==> {
                &&& next_message(bytes) == match frame_message(bytes.subrange(4, 4 + said)) {
                    Ok(message) => Ok::<Option<MessageView>, Error>(Some(message)),
                    Err(error) => Err::<Option<MessageView>, Error>(error),
                }
                &&& after_message(bytes) == bytes.skip(4 + said)
            }
        }),
{
    if bytes.len() >= 4 {
        length_said(bytes.take(4));
    }
}

} // verus!
