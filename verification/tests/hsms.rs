use secs_gem::hsms::{
    decode, encode, message_length, read_message, write_message, HEADER_LEN, MAX_MESSAGE,
};
use secs_gem::{Error, Header, Message, SType};

const ALL_STYPES: [SType; 9] = [
    SType::Data,
    SType::SelectReq,
    SType::SelectRsp,
    SType::DeselectReq,
    SType::DeselectRsp,
    SType::LinktestReq,
    SType::LinktestRsp,
    SType::RejectReq,
    SType::SeparateReq,
];

#[test]
fn a_data_message_and_a_control_message_round_trip() {
    let primary = Message {
        header: Header::data(1, 6, 11, true, 0x0102_0304),
        body: vec![0x01, 0x00],
    };
    let bytes = encode(&primary);
    assert_eq!(
        bytes,
        [0, 0, 0, 12, 0, 1, 0x86, 11, 0, 0, 1, 2, 3, 4, 0x01, 0x00]
    );
    let back = read_message(&mut bytes.as_slice())
        .expect("read")
        .expect("one");
    assert_eq!(back, primary);
    let reply = primary.header.reply();
    assert_eq!(
        (reply.function, reply.wait, reply.system),
        (12, false, 0x0102_0304)
    );
    let select = Message {
        header: Header::control(0xFFFF, SType::SelectReq, 0, 7),
        body: Vec::new(),
    };
    let mut wire = Vec::new();
    write_message(&mut wire, &select);
    assert_eq!(&wire[..4], &[0, 0, 0, 10]);
    assert_eq!(wire[9], 1, "select.req");
    let back = read_message(&mut wire.as_slice())
        .expect("read")
        .expect("one");
    assert_eq!(back, select);
    assert!(read_message(&mut &b""[..]).expect("closed").is_none());
    for stype in [SType::Data, SType::LinktestRsp, SType::SeparateReq] {
        assert_eq!(SType::from_byte(stype.byte()).expect("byte"), stype);
    }
}

#[test]
fn what_is_not_hsms_is_refused() {
    assert!(
        read_message(&mut &[0u8, 0, 0, 4, 1, 2, 3, 4][..]).is_err(),
        "short"
    );
    assert!(
        read_message(&mut &[1u8, 0, 0, 0][..]).is_err(),
        "16 MiB and more"
    );
    assert!(read_message(&mut &[0u8, 0, 0, 10, 0, 1, 0, 0, 0, 8, 0, 0, 0, 0][..]).is_err());
    assert!(
        read_message(&mut &[0u8, 0, 0, 10, 0, 1][..]).is_err(),
        "cut off"
    );
    assert!(SType::from_byte(8).is_err());
    assert!(!read_message(&mut &[0u8, 0][..])
        .expect_err("cut")
        .retryable());
}

#[test]
fn each_refusal_of_a_message_has_its_reason() {
    assert_eq!(
        read_message(&mut &[0u8, 0, 0, 9, 1][..]),
        Err(Error::ShorterThanHeader)
    );
    assert_eq!(
        read_message(&mut &[1u8, 0, 0, 1][..]),
        Err(Error::OverMaxMessage)
    );
    assert_eq!(
        read_message(&mut &[0u8, 0, 0][..]),
        Err(Error::CutInMessageLength)
    );
    assert_eq!(
        read_message(&mut &[0u8, 0, 0, 10, 0][..]),
        Err(Error::CutInMessage)
    );
    assert_eq!(
        read_message(&mut &[0u8, 0, 0, 10, 0, 1, 0, 0, 0, 8, 0, 0, 0, 0][..]),
        Err(Error::UnknownSessionType(8))
    );
    assert_eq!(decode(&[0; 9]), Err(Error::ShorterThanHeader));
}

#[test]
fn a_reader_is_left_behind_what_was_read() {
    let first = Message {
        header: Header::data(1, 1, 1, true, 1),
        body: b"first".to_vec(),
    };
    let second = Message {
        header: Header::control(1, SType::SeparateReq, 0, 2),
        body: Vec::new(),
    };
    let mut wire = encode(&first);
    write_message(&mut wire, &second);
    wire.extend_from_slice(&[0, 0, 0, 1, 7]);
    let mut reader = wire.as_slice();
    assert_eq!(read_message(&mut reader), Ok(Some(first)));
    assert_eq!(read_message(&mut reader), Ok(Some(second)));
    assert_eq!(read_message(&mut reader), Err(Error::ShorterThanHeader));
    assert_eq!(reader, &[7]);
    assert_eq!(read_message(&mut reader), Err(Error::CutInMessageLength));
    assert_eq!(read_message(&mut reader), Ok(None));
}

#[test]
fn the_longest_message_is_read_and_a_longer_one_refused() {
    let mut message = Message {
        header: Header::data(9, 5, 1, false, 77),
        body: vec![3; MAX_MESSAGE - HEADER_LEN],
    };
    let bytes = encode(&message);
    assert_eq!(&bytes[..4], &[1, 0, 0, 0]);
    assert_eq!(read_message(&mut bytes.as_slice()), Ok(Some(message.clone())));
    message.body.push(3);
    assert_eq!(
        read_message(&mut encode(&message).as_slice()),
        Err(Error::OverMaxMessage)
    );
}

#[test]
fn every_cut_of_a_message_is_refused() {
    let bytes = encode(&Message {
        header: Header::data(0x1234, 127, 255, true, 0xFFFF_FFFF),
        body: vec![1, 2, 3],
    });
    for count in 1..bytes.len() {
        assert_eq!(
            read_message(&mut &bytes[..count]),
            Err(if count < 4 {
                Error::CutInMessageLength
            } else {
                Error::CutInMessage
            })
        );
    }
}

#[test]
fn what_was_read_is_written_in_the_same_bytes() {
    let bytes = [
        0, 0, 0, 13, 0xAB, 0xCD, 0xFF, 0, 7, 9, 0x80, 0, 0, 1, 5, 6, 7,
    ];
    let message = read_message(&mut &bytes[..]).expect("read").expect("one");
    assert_eq!(
        message.header,
        Header {
            session_id: 0xABCD,
            stream: 0xFF,
            wait: false,
            function: 0,
            ptype: 7,
            stype: SType::SeparateReq,
            system: 0x8000_0001,
        }
    );
    assert_eq!(encode(&message), bytes);
    assert_eq!(decode(&bytes[4..]), Ok(message));
}

#[test]
fn byte_2_is_the_high_status_byte_of_a_control_message() {
    let reject = [0, 0, 0, 10, 0, 1, 0x80, 3, 0, 7, 0, 0, 0, 1];
    let message = read_message(&mut &reject[..]).expect("read").expect("one");
    assert_eq!(
        message.header,
        Header {
            session_id: 1,
            stream: 0x80,
            wait: false,
            function: 3,
            ptype: 0,
            stype: SType::RejectReq,
            system: 1,
        }
    );
    assert_eq!(encode(&message), reject);
    let mut data = reject;
    data[9] = 0;
    let message = read_message(&mut &data[..]).expect("read").expect("one");
    assert_eq!((message.header.stream, message.header.wait), (0, true));
    assert_eq!(encode(&message), data);
}

#[test]
fn session_types_and_bytes_stand_for_each_other() {
    for stype in ALL_STYPES {
        assert_eq!(SType::from_byte(stype.byte()), Ok(stype));
    }
    for byte in 0..=255u8 {
        match SType::from_byte(byte) {
            Ok(stype) => assert_eq!(stype.byte(), byte),
            Err(error) => {
                assert!(byte == 8 || byte > 9);
                assert_eq!(error, Error::UnknownSessionType(byte));
            }
        }
    }
}

#[test]
fn headers_hold_what_they_are_made_of() {
    let data = Header::data(7, 0x86, 41, false, 3);
    assert_eq!((data.stream, data.wait, data.ptype), (6, false, 0));
    assert_eq!(data.stype, SType::Data);
    let control = Header::control(7, SType::SelectRsp, 2, 3);
    assert_eq!(
        (control.stream, control.wait, control.function, control.system),
        (0, false, 2, 3)
    );
    let reply = Header::data(7, 1, 254, true, 9).reply();
    assert_eq!(reply, Header::data(7, 1, 255, false, 9));
}

#[test]
fn a_length_prefix_says_how_much_follows() {
    assert_eq!(message_length([0, 0, 0, 10]), Ok(10));
    assert_eq!(message_length([0, 1, 0, 2]), Ok(0x1_0002));
    assert_eq!(message_length([1, 0, 0, 0]), Ok(MAX_MESSAGE));
    assert_eq!(message_length([1, 0, 0, 1]), Err(Error::OverMaxMessage));
    assert_eq!(message_length([0, 0, 0, 9]), Err(Error::ShorterThanHeader));
}
