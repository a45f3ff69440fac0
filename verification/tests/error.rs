use secs_gem::Error;

#[test]
fn every_reason_has_its_words() {
    let uneven = Error::UnevenValues {
        length: 12_345,
        width: 8,
    };
    let setting = Error::NotANumber {
        key: "stream".into(),
        value: "a\"b\n".into(),
    };
    let worded = [
        (
            Error::UnknownSessionType(108),
            "session type 108 is not HSMS",
        ),
        (
            Error::ShorterThanHeader,
            "an HSMS message shorter than its header",
        ),
        (
            Error::OverMaxMessage,
            "an HSMS message over what Xmip will read",
        ),
        (
            Error::CutInMessageLength,
            "an HSMS message cut off in its length",
        ),
        (Error::CutInMessage, "an HSMS message cut off"),
        (
            Error::NestedTooDeep,
            "a list nested past what is reasonable",
        ),
        (Error::CutAtFormatByte, "an item cut off at its format byte"),
        (Error::NoLengthBytes, "a format byte with no length bytes"),
        (Error::CutInItemLength, "an item cut off in its length"),
        (
            Error::LongerThanWhatFollows,
            "an item longer than what follows",
        ),
        (
            uneven,
            "a numeric item of 12345 bytes where each value is 8",
        ),
        (
            Error::UnknownFormat(0o77),
            "format code 0o77 is not one E5 defines",
        ),
        (
            Error::UnknownFormat(1),
            "format code 0o1 is not one E5 defines",
        ),
        (Error::BytesAfterItem, "bytes after the item"),
        (Error::SelectRefused(3), "select refused with status 3"),
        (
            Error::SelectNotAnswered,
            "the peer did not answer Select.req",
        ),
        (
            Error::SelectNotOpened,
            "the peer did not open with Select.req",
        ),
        (
            Error::SeparatedBeforeReply,
            "the peer separated before replying",
        ),
        (
            Error::ClosedDuringLinktest,
            "the peer closed during a linktest",
        ),
        (
            Error::SeparatedWithoutMessage,
            "the host separated without a message",
        ),
        (setting, "stream=\"a\\\"b\\n\" is not a number"),
    ];
    for (error, words) in worded {
        assert_eq!(error.message(), words);
        assert!(!error.retryable());
    }
}
