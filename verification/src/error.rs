//! What a peer, a body or a target can get wrong.

use crate::text::{decimal, numeral, push_numeral};
use vstd::prelude::*;

verus! {

/// Why something was refused. None of these is worth another try with the
/// same bytes.
#[derive(Clone, Debug, PartialEq, Eq)]
pub enum Error {
    /// A session type HSMS does not define.
    UnknownSessionType(u8),
    /// A message that says it is shorter than its header.
    ShorterThanHeader,
    /// A message that says it is longer than what is read.
    OverMaxMessage,
    /// A connection that closed inside the length of a message.
    CutInMessageLength,
    /// A connection that closed inside a message.
    CutInMessage,
    /// A list nested too deep.
    NestedTooDeep,
    /// An item that ends before its format byte.
    CutAtFormatByte,
    /// A format byte that announces no length bytes.
    NoLengthBytes,
    /// An item that ends inside its length bytes.
    CutInItemLength,
    /// An item longer than the bytes that follow.
    LongerThanWhatFollows,
    /// A numeric item of `length` bytes, not a whole number of values of
    /// `width` bytes each.
    UnevenValues { length: usize, width: usize },
    /// A format code SECS-II does not define.
    UnknownFormat(u8),
    /// Bytes after the one item of a body.
    BytesAfterItem,
    /// A select that was answered with a status other than zero.
    SelectRefused(u8),
    /// A select that was not answered.
    SelectNotAnswered,
    /// A connection that did not open with a select.
    SelectNotOpened,
    /// A peer that ended the session with a reply due.
    SeparatedBeforeReply,
    /// A peer that closed with the answer to a linktest due.
    ClosedDuringLinktest,
    /// A peer that ended the session before it sent a message.
    SeparatedWithoutMessage,
    /// A setting of a target that is not a number from 0 to 255.
    NotANumber { key: String, value: String },
}

/// `text` between double quotes, with what would not print escaped, as
/// `Debug` writes a `str`.
pub uninterp spec fn quoted_text(text: Seq<char>) -> Seq<char>;

/// `text` as the `Debug` impl of `str` writes it, by `format!`: the name
/// `quoted_text` stands for that text, which is a function of `text` alone.
#[verifier::external_body]
fn quoted(text: &str) -> (quoted: String)
    ensures
        quoted@ == quoted_text(text@),
{
    format!("{:?}", text)
}

impl Error {
    /// What is wrong, in words.
    pub open spec fn words(self) -> Seq<char> {
        match self {
            Error::UnknownSessionType(byte) => "session type "@ + decimal(byte as nat)
                + " is not HSMS"@,
            Error::ShorterThanHeader => "an HSMS message shorter than its header"@,
            Error::OverMaxMessage => "an HSMS message over what Xmip will read"@,
            Error::CutInMessageLength => "an HSMS message cut off in its length"@,
            Error::CutInMessage => "an HSMS message cut off"@,
            Error::NestedTooDeep => "a list nested past what is reasonable"@,
            Error::CutAtFormatByte => "an item cut off at its format byte"@,
            Error::NoLengthBytes => "a format byte with no length bytes"@,
            Error::CutInItemLength => "an item cut off in its length"@,
            Error::LongerThanWhatFollows => "an item longer than what follows"@,
            Error::UnevenValues { length, width } => "a numeric item of "@ + decimal(length as nat)
                + " bytes where each value is "@ + decimal(width as nat),
            Error::UnknownFormat(format) => "format code 0o"@ + numeral(format as nat, 8)
                + " is not one E5 defines"@,
            Error::BytesAfterItem => "bytes after the item"@,
            Error::SelectRefused(status) => "select refused with status "@ + decimal(status as nat),
            Error::SelectNotAnswered => "the peer did not answer Select.req"@,
            Error::SelectNotOpened => "the peer did not open with Select.req"@,
            Error::SeparatedBeforeReply => "the peer separated before replying"@,
            Error::ClosedDuringLinktest => "the peer closed during a linktest"@,
            Error::SeparatedWithoutMessage => "the host separated without a message"@,
            Error::NotANumber { key, value } => key@ + "="@ + quoted_text(value@)
                + " is not a number"@,
        }
    }

    /// What is wrong, in words.
    pub fn message(&self) -> (text: String)
        ensures
            text@ == self.words(),
    {
        match self {
            Error::UnknownSessionType(byte) => counted("session type ", *byte as u64, " is not HSMS"),
            Error::ShorterThanHeader => "an HSMS message shorter than its header".to_owned(),
            Error::OverMaxMessage => "an HSMS message over what Xmip will read".to_owned(),
            Error::CutInMessageLength => "an HSMS message cut off in its length".to_owned(),
            Error::CutInMessage => "an HSMS message cut off".to_owned(),
            Error::NestedTooDeep => "a list nested past what is reasonable".to_owned(),
            Error::CutAtFormatByte => "an item cut off at its format byte".to_owned(),
            Error::NoLengthBytes => "a format byte with no length bytes".to_owned(),
            Error::CutInItemLength => "an item cut off in its length".to_owned(),
            Error::LongerThanWhatFollows => "an item longer than what follows".to_owned(),
            Error::UnevenValues { length, width } => {
                let mut text = counted(
                    "a numeric item of ",
                    *length as u64,
                    " bytes where each value is ",
                );
                push_numeral(&mut text, *width as u64, 10);
                text
            },
            Error::UnknownFormat(format) => {
                let mut text = "format code 0o".to_owned();
                push_numeral(&mut text, *format as u64, 8);
                text.append(" is not one E5 defines");
                text
            },
            Error::BytesAfterItem => "bytes after the item".to_owned(),
            Error::SelectRefused(status) => {
                let mut text = "select refused with status ".to_owned();
                push_numeral(&mut text, *status as u64, 10);
                text
            },
            Error::SelectNotAnswered => "the peer did not answer Select.req".to_owned(),
            Error::SelectNotOpened => "the peer did not open with Select.req".to_owned(),
            Error::SeparatedBeforeReply => "the peer separated before replying".to_owned(),
            Error::ClosedDuringLinktest => "the peer closed during a linktest".to_owned(),
            Error::SeparatedWithoutMessage => "the host separated without a message".to_owned(),
            Error::NotANumber { key, value } => {
                let mut text = key.as_str().to_owned();
                text.append("=");
                text.append(quoted(value.as_str()).as_str());
                text.append(" is not a number");
                text
            },
        }
    }

    /// Whether another try could end otherwise: what is refused here stays
    /// refused.
    pub fn retryable(&self) -> (retryable: bool)
        ensures
            !retryable,
    {
        false
    }
}

/// `before`, then `n` in decimal digits, then `after`.
fn counted(before: &str, n: u64, after: &str) -> (text: String)
    ensures
        text@ == before@ + decimal(n as nat) + after@,
{
    let mut text = before.to_owned();
    push_numeral(&mut text, n, 10);
    text.append(after);
    text
}

/// The words of each refusal, with what it tells: the numbers in full, a format
/// code in octal, and a setting as it was spelled.
pub proof fn words_tell(
    byte: u8,
    length: usize,
    width: usize,
    key: String,
    value: String,
)
    ensures
        Error::UnknownSessionType(byte).words() == "session type "@ + decimal(byte as nat)
            + " is not HSMS"@,
        Error::ShorterThanHeader.words() == "an HSMS message shorter than its header"@,
        Error::OverMaxMessage.words() == "an HSMS message over what Xmip will read"@,
        Error::CutInMessageLength.words() == "an HSMS message cut off in its length"@,
        Error::CutInMessage.words() == "an HSMS message cut off"@,
        Error::NestedTooDeep.words() == "a list nested past what is reasonable"@,
        Error::CutAtFormatByte.words() == "an item cut off at its format byte"@,
        Error::NoLengthBytes.words() == "a format byte with no length bytes"@,
        Error::CutInItemLength.words() == "an item cut off in its length"@,
        Error::LongerThanWhatFollows.words() == "an item longer than what follows"@,
        (Error::UnevenValues { length, width }).words() == "a numeric item of "@ + decimal(
            length as nat,
        ) + " bytes where each value is "@ + decimal(width as nat),
        Error::UnknownFormat(byte).words() == "format code 0o"@ + numeral(byte as nat, 8)
            + " is not one E5 defines"@,
        Error::BytesAfterItem.words() == "bytes after the item"@,
        Error::SelectRefused(byte).words() == "select refused with status "@ + decimal(byte as nat),
        Error::SelectNotAnswered.words() == "the peer did not answer Select.req"@,
        Error::SelectNotOpened.words() == "the peer did not open with Select.req"@,
        Error::SeparatedBeforeReply.words() == "the peer separated before replying"@,
        Error::ClosedDuringLinktest.words() == "the peer closed during a linktest"@,
        Error::SeparatedWithoutMessage.words() == "the host separated without a message"@,
        (Error::NotANumber { key, value }).words() == key@ + "="@ + quoted_text(value@)
            + " is not a number"@,
{
}

} // verus!
