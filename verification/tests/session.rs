use secs_gem::connection::{Next, Step};
use secs_gem::hsms::{encode, read_message, write_message};
use secs_gem::{Connection, Error, Header, Message, SType};

const HOST: &str = "192.0.2.7:40001";
const EQUIPMENT: &str = "192.0.2.8:5000";

/// The next message on `wire`, taken from it.
fn read(wire: &mut Vec<u8>) -> Option<Message> {
    let mut rest = wire.as_slice();
    let message = read_message(&mut rest).expect("HSMS");
    let left = rest.to_vec();
    *wire = left;
    message
}

/// The next data message on `incoming`, what is asked on the way answered on
/// `outgoing`.
fn next_data(incoming: &mut Vec<u8>, outgoing: &mut Vec<u8>) -> Option<Message> {
    loop {
        let step = Connection::next_data(read(incoming));
        if let Some(answer) = step.answer {
            write_message(outgoing, &answer);
        }
        match step.next {
            Next::ReadOn => {}
            Next::Deliver(message) => return Some(message),
            Next::Finished => return None,
            Next::Refused(error) => panic!("{error:?}"),
        }
    }
}

/// An active and a passive side, selected under `session_id`.
fn selected_pair(session_id: u16) -> (Connection, Connection) {
    let (selecting, select) = Connection::connect(EQUIPMENT.into(), session_id);
    let mut out = encode(&select);
    let (passive, granted) = Connection::accept(HOST.into(), read(&mut out)).expect("accept");
    let mut back = encode(&granted);
    let active = selecting.selected(read(&mut back)).expect("select");
    (active, passive)
}

fn data(system: u32, body: &[u8]) -> Message {
    Message {
        header: Header::data(1, 6, 11, false, system),
        body: body.to_vec(),
    }
}

fn control(stype: SType, status: u8, system: u32) -> Message {
    Message {
        header: Header::control(1, stype, status, system),
        body: Vec::new(),
    }
}

fn silent(next: Next) -> Step {
    Step { answer: None, next }
}

#[test]
fn a_selected_pair_exchanges_data_linktests_and_separates() {
    let (mut host, mut equipment) = selected_pair(1);
    assert_eq!(host.session_id(), 1);
    assert_eq!(equipment.session_id(), 1);
    let (mut out, mut back) = (Vec::new(), Vec::new());

    let (sent, awaited) = host.send_data(1, 1, true, &[]);
    write_message(&mut out, &sent);
    let primary = next_data(&mut out, &mut back).expect("one");
    assert!(primary.header.wait);
    assert_eq!(
        equipment.origin(&primary.header),
        format!(
            "secs-gem://{}?session=1&stream=1&function=1",
            equipment.peer()
        )
    );
    write_message(&mut back, &Connection::reply(&primary, b"MDLN"));
    let step = Connection::await_reply(awaited.expect("a reply is due"), read(&mut back));
    let Next::Deliver(reply) = step.next else {
        panic!("S1F2 is the reply to S1F1");
    };
    assert_eq!((reply.header.stream, reply.header.function), (1, 2));
    assert_eq!(reply.body, b"MDLN");

    write_message(&mut out, &host.linktest());
    let step = Connection::next_data(read(&mut out));
    assert_eq!(step.next, Next::ReadOn);
    write_message(&mut back, &step.answer.expect("Linktest.rsp"));
    assert_eq!(
        Connection::await_linktest(read(&mut back)),
        silent(Next::Finished)
    );

    let (sent, awaited) = host.send_data(6, 11, false, b"event");
    assert!(awaited.is_none());
    write_message(&mut out, &sent);
    write_message(&mut out, &host.separate());
    let event = next_data(&mut out, &mut back).expect("one");
    assert_eq!(event.body, b"event");
    assert!(next_data(&mut out, &mut back).is_none());
    assert!(out.is_empty() && back.is_empty());
    assert_eq!(equipment.linktest().header.system, 1);
}

#[test]
fn a_peer_that_does_not_select_is_refused() {
    let mut wire = Vec::new();
    write_message(
        &mut wire,
        &Message {
            header: Header::data(1, 1, 1, false, 1),
            body: Vec::new(),
        },
    );
    let error = Connection::accept(HOST.into(), read(&mut wire))
        .err()
        .expect("refused");
    assert!(!error.retryable());
    assert_eq!(error, Error::SelectNotOpened);
    let error = Connection::accept(HOST.into(), None).err();
    assert_eq!(error, Some(Error::SelectNotOpened));
}

#[test]
fn a_select_is_granted_under_the_id_the_answer_names() {
    let (selecting, select) = Connection::connect(EQUIPMENT.into(), 0xFFFF);
    assert_eq!(
        select.header,
        Header::control(0xFFFF, SType::SelectReq, 0, 1)
    );
    assert!(select.body.is_empty());
    let granted = Message {
        header: Header::control(12, SType::SelectRsp, 0, 1),
        body: Vec::new(),
    };
    let host = selecting.selected(Some(granted)).expect("granted");
    assert_eq!(host.session_id(), 12);
    assert_eq!(host.peer(), EQUIPMENT);
}

#[test]
fn a_select_that_is_not_granted_makes_no_connection() {
    for (read, error) in [
        (
            Some(control(SType::SelectRsp, 3, 1)),
            Error::SelectRefused(3),
        ),
        (
            Some(control(SType::SelectReq, 0, 1)),
            Error::SelectNotAnswered,
        ),
        (Some(data(1, b"")), Error::SelectNotAnswered),
        (None, Error::SelectNotAnswered),
    ] {
        let (selecting, _) = Connection::connect(EQUIPMENT.into(), 5);
        assert_eq!(selecting.selected(read).err(), Some(error));
    }
}

#[test]
fn system_bytes_count_up_from_one() {
    let (_, mut equipment) = selected_pair(1);
    for system in 1..=300 {
        assert_eq!(equipment.system(), system);
    }
    assert_eq!(equipment.linktest().header.system, 301);
    assert_eq!((equipment.peer(), equipment.session_id()), (HOST, 1));
}

#[test]
fn what_arrives_while_data_is_due_is_dealt_with_by_its_type() {
    let event = data(4, b"event");
    assert_eq!(
        Connection::next_data(Some(event.clone())),
        silent(Next::Deliver(event))
    );
    for (request, answer, status, next) in [
        (SType::LinktestReq, SType::LinktestRsp, 0, Next::ReadOn),
        (SType::SelectReq, SType::SelectRsp, 1, Next::ReadOn),
        (SType::DeselectReq, SType::DeselectRsp, 0, Next::Finished),
    ] {
        assert_eq!(
            Connection::next_data(Some(control(request, 0, 9))),
            Step {
                answer: Some(control(answer, status, 9)),
                next,
            }
        );
    }
    for passed_over in [
        SType::LinktestRsp,
        SType::SelectRsp,
        SType::DeselectRsp,
        SType::RejectReq,
    ] {
        assert_eq!(
            Connection::next_data(Some(control(passed_over, 0, 9))),
            silent(Next::ReadOn)
        );
    }
    assert_eq!(
        Connection::next_data(Some(control(SType::SeparateReq, 0, 9))),
        silent(Next::Finished)
    );
    assert_eq!(Connection::next_data(None), silent(Next::Finished));
}

#[test]
fn a_reply_is_the_first_data_under_its_system_bytes() {
    let reply = data(7, b"reply");
    assert_eq!(
        Connection::await_reply(7, Some(data(6, b"another"))),
        silent(Next::ReadOn)
    );
    assert_eq!(
        Connection::await_reply(7, Some(control(SType::LinktestReq, 0, 2))),
        Step {
            answer: Some(control(SType::LinktestRsp, 0, 2)),
            next: Next::ReadOn,
        }
    );
    assert_eq!(
        Connection::await_reply(7, Some(reply.clone())),
        silent(Next::Deliver(reply))
    );
}

#[test]
fn a_peer_that_ends_before_replying_is_refused() {
    let refused = Next::Refused(Error::SeparatedBeforeReply);
    assert_eq!(Connection::await_reply(7, None), silent(refused.clone()));
    assert_eq!(
        Connection::await_reply(7, Some(control(SType::SeparateReq, 0, 7))),
        silent(refused.clone())
    );
    assert_eq!(
        Connection::await_reply(7, Some(control(SType::DeselectReq, 0, 8))),
        Step {
            answer: Some(control(SType::DeselectRsp, 0, 8)),
            next: refused,
        }
    );
}

#[test]
fn a_linktest_is_over_with_its_answer_and_refused_without() {
    assert_eq!(
        Connection::await_linktest(Some(control(SType::LinktestReq, 0, 3))),
        Step {
            answer: Some(control(SType::LinktestRsp, 0, 3)),
            next: Next::ReadOn,
        }
    );
    assert_eq!(
        Connection::await_linktest(Some(data(3, b"lost"))),
        silent(Next::ReadOn)
    );
    assert_eq!(
        Connection::await_linktest(Some(control(SType::SeparateReq, 0, 3))),
        silent(Next::ReadOn)
    );
    assert_eq!(
        Connection::await_linktest(Some(control(SType::LinktestRsp, 0, 99))),
        silent(Next::Finished)
    );
    assert_eq!(
        Connection::await_linktest(None),
        silent(Next::Refused(Error::ClosedDuringLinktest))
    );
}

#[test]
fn each_request_has_system_bytes_of_its_own() {
    let (mut host, _) = selected_pair(1);
    let (first, awaited) = host.send_data(1, 1, true, b"");
    assert_eq!((first.header.system, awaited), (2, Some(2)));
    assert_eq!(host.linktest().header.system, 3);
    assert_eq!(host.send_data(6, 11, false, b"").0.header.system, 4);
    assert_eq!(
        host.separate(),
        Message {
            header: Header::control(1, SType::SeparateReq, 0, 5),
            body: Vec::new(),
        }
    );
}

#[test]
fn a_stream_is_sent_in_seven_bits() {
    let (mut host, _) = selected_pair(1);
    let (sent, _) = host.send_data(0x86, 11, false, b"");
    assert_eq!((sent.header.stream, sent.header.wait), (6, false));
    let mut wire = encode(&sent);
    assert_eq!(read(&mut wire), Some(sent));
}

#[test]
fn a_reply_is_under_the_next_function_up() {
    let primary = Message {
        header: Header::data(9, 2, 254, true, 0xAABB_CCDD),
        body: b"question".to_vec(),
    };
    assert_eq!(
        Connection::reply(&primary, b"answer"),
        Message {
            header: Header::data(9, 2, 255, false, 0xAABB_CCDD),
            body: b"answer".to_vec(),
        }
    );
}

#[test]
fn what_arrived_is_handed_up_with_its_origin() {
    let (_, equipment) = selected_pair(300);
    let event = Message {
        header: Header::data(300, 6, 11, false, 1),
        body: b"body".to_vec(),
    };
    let origin = format!("secs-gem://{HOST}?session=300&stream=6&function=11");
    assert_eq!(
        equipment.arrived(event.clone()),
        (origin.clone(), b"body".to_vec())
    );
    assert_eq!(
        equipment.one_arrived(Some(event)),
        Ok((origin, b"body".to_vec()))
    );
    assert_eq!(
        equipment.one_arrived(None),
        Err(Error::SeparatedWithoutMessage)
    );
}

#[test]
fn a_session_goes_on_under_the_id_that_was_granted() {
    let (selecting, select) = Connection::connect(EQUIPMENT.into(), 0xFFFF);
    let mut back = encode(&Message {
        header: Header::control(12, SType::SelectRsp, 0, select.header.system),
        body: Vec::new(),
    });
    let mut host = selecting.selected(read(&mut back)).expect("select");
    let (sent, awaited) = host.send_data(1, 13, true, b"body");
    assert_eq!(sent.header, Header::data(12, 1, 13, true, 2));
    let mut out = encode(&sent);
    let primary = next_data(&mut out, &mut back).expect("one");
    assert_eq!(primary.body, b"body");
    write_message(&mut back, &Connection::reply(&primary, b"reply"));
    assert_eq!(
        Connection::await_reply(awaited.expect("a reply is due"), read(&mut back)),
        silent(Next::Deliver(Message {
            header: Header::data(12, 1, 14, false, 2),
            body: b"reply".to_vec(),
        }))
    );
    let separate = host.separate();
    assert_eq!(
        separate.header,
        Header::control(12, SType::SeparateReq, 0, 3)
    );
    write_message(&mut out, &separate);
    assert!(next_data(&mut out, &mut back).is_none());
    assert!(back.is_empty());
}
