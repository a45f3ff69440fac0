use secs_gem::connection::Next;
use secs_gem::hsms::{encode, read_message, write_message};
use secs_gem::item;
use secs_gem::{Connection, Error, Item, Message, SecsGemTransport};
use std::time::Duration;

const NEAR: &str = "127.0.0.1:40001";

fn node() -> SecsGemTransport {
    SecsGemTransport::new("127.0.0.1:0").timing_out_after(Duration::from_secs(2))
}

/// The next message on `wire`, taken from it.
fn read(wire: &mut Vec<u8>) -> Option<Message> {
    let mut rest = wire.as_slice();
    let message = read_message(&mut rest).expect("HSMS");
    let left = rest.to_vec();
    *wire = left;
    message
}

/// The next data message on `incoming`, what is asked on the way answered on
/// `outgoing`.
fn next_data(incoming: &mut Vec<u8>, outgoing: &mut Vec<u8>) -> Option<Message> {
    loop {
        let step = Connection::next_data(read(incoming));
        if let Some(answer) = step.answer {
            write_message(outgoing, &answer);
        }
        match step.next {
            Next::ReadOn => {}
            Next::Deliver(message) => return Some(message),
            Next::Finished => return None,
            Next::Refused(error) => panic!("{error:?}"),
        }
    }
}

/// `host` selected at `address`, and the equipment that granted it.
fn selected(host: &SecsGemTransport, address: &str) -> (Connection, Connection) {
    let (selecting, select) = Connection::connect(address.into(), host.session_id());
    let (passive, granted) =
        Connection::accept(NEAR.into(), read(&mut encode(&select))).expect("accepting");
    let active = selecting
        .selected(read(&mut encode(&granted)))
        .expect("selecting");
    (active, passive)
}

/// What the far end of a loopback hands up for `payload`.
fn round(payload: &[u8]) -> (String, Vec<u8>) {
    let near = SecsGemTransport::loopback(Duration::from_secs(5)).near_end(Duration::from_secs(5));
    let (address, stream, function, wait) = near.resolve("127.0.0.1:5000", None).expect("resolved");
    let (mut host, equipment) = selected(&near, &address);
    let (mut out, mut back) = (Vec::new(), Vec::new());
    let (sent, awaited) = host.send_data(stream, function, wait, payload);
    assert!(awaited.is_none());
    write_message(&mut out, &sent);
    write_message(&mut out, &host.separate());
    let taken = next_data(&mut out, &mut back);
    assert!(next_data(&mut out, &mut back).is_none());
    equipment.one_arrived(taken).expect("one")
}

#[test]
fn the_loopback_sends_one_event_report_and_takes_it() {
    let (origin_uri, bytes) = round(b"S6F11");
    assert_eq!(bytes, b"S6F11");
    assert!(origin_uri.starts_with("secs-gem://127.0.0.1:"));
    assert!(origin_uri.ends_with("?session=65535&stream=6&function=11"));
    let long: Vec<u8> = (0..=255u8).cycle().take(3000).collect();
    assert_eq!(round(&long).1, long);
}

#[test]
fn the_loopback_returns_payloads_whole() {
    for payload in [
        Vec::new(),
        vec![0],
        b"\r\n\r\n".to_vec(),
        vec![0xFF; 70_000],
        "Größe".as_bytes().to_vec(),
    ] {
        assert_eq!(round(&payload).1, payload);
    }
}

#[test]
fn a_host_sends_to_an_equipment_and_takes_its_reply_when_waiting() {
    let address = "127.0.0.1:5000";
    let body = item::encode(&Item::List(vec![
        Item::U4(vec![1]),
        Item::Ascii("A".into()),
    ]));

    let first = node().with_session(3);
    let (at, stream, function, wait) = first.resolve(address, None).expect("bare");
    assert_eq!(at, address);
    let (mut host, connection) = selected(&first, &at);
    assert_eq!(connection.session_id(), 3);
    let (mut out, mut back) = (Vec::new(), Vec::new());
    write_message(&mut out, &host.send_data(stream, function, wait, &body).0);
    write_message(&mut out, &host.separate());
    let event = next_data(&mut out, &mut back).expect("one");
    assert_eq!(event.body, body);
    assert_eq!(
        item::decode(&event.body).expect("items"),
        Item::List(vec![Item::U4(vec![1]), Item::Ascii("A".into())])
    );
    assert!(connection
        .origin(&event.header)
        .ends_with("?session=3&stream=6&function=11"));
    assert!(next_data(&mut out, &mut back).is_none());

    let authority = format!("{address}?stream=1&function=13&wait=1");
    let (at, stream, function, wait) = node()
        .resolve(&format!("secs-gem://{authority}"), Some(&authority))
        .expect("resolved");
    assert_eq!(at, address);
    let (mut host, _) = selected(&node(), &at);
    let (sent, awaited) = host.send_data(stream, function, wait, b"");
    write_message(&mut out, &sent);
    let establish = next_data(&mut out, &mut back).expect("one");
    assert!(establish.header.wait);
    assert_eq!(
        (establish.header.stream, establish.header.function),
        (1, 13)
    );
    write_message(&mut back, &Connection::reply(&establish, &[0x01, 0x00]));
    let step = Connection::await_reply(awaited.expect("a reply is due"), read(&mut back));
    let Next::Deliver(reply) = step.next else {
        panic!("S1F14 is the reply to S1F13");
    };
    assert_eq!((reply.header.function, reply.body), (14, vec![0x01, 0x00]));
    write_message(&mut out, &host.separate());
    assert!(next_data(&mut out, &mut back).is_none());
}

#[test]
fn receive_takes_an_equipments_messages_until_it_separates() {
    let (mut equipment, connection) = selected(&node().with_session(7), "127.0.0.1:5000");
    let (mut out, mut back) = (Vec::new(), Vec::new());
    write_message(&mut out, &equipment.send_data(6, 11, false, b"first").0);
    write_message(&mut out, &equipment.linktest());
    write_message(&mut out, &equipment.send_data(5, 1, false, b"alarm").0);
    write_message(&mut out, &equipment.separate());
    let mut arrived = Vec::new();
    while let Some(message) = next_data(&mut out, &mut back) {
        arrived.push(connection.arrived(message));
    }
    assert_eq!(
        Connection::await_linktest(read(&mut back)).next,
        Next::Finished
    );
    assert_eq!(arrived.len(), 2);
    assert_eq!(arrived[0].1, b"first");
    assert!(arrived[0].0.ends_with("?session=7&stream=6&function=11"));
    assert!(arrived[1].0.ends_with("?session=7&stream=5&function=1"));
    assert_eq!(arrived[1].1, b"alarm");
}

#[test]
fn a_target_resolves_and_what_is_not_hsms_is_refused() {
    let (address, stream, function, wait) = node()
        .resolve(
            "secs-gem://tool:5000?stream=2&function=41&wait=1",
            Some("tool:5000?stream=2&function=41&wait=1"),
        )
        .expect("resolved");
    assert_eq!(
        (address.as_str(), stream, function, wait),
        ("tool:5000", 2, 41, true)
    );
    assert_eq!(
        node().resolve("tool:5000", None).expect("bare"),
        ("tool:5000".into(), 6, 11, false)
    );
    assert!(
        node()
            .awaiting_reply()
            .resolve("secs-gem://tool", Some("tool"))
            .expect("w")
            .3
    );
    assert!(node()
        .resolve("secs-gem://tool?stream=x", Some("tool?stream=x"))
        .is_err());
    let error = read_message(&mut &b"220 mail.example ESMTP\r\n"[..]).expect_err("refused");
    assert!(!error.retryable(), "{error:?}");
    assert_eq!(node().name(), "secs-gem");
}

#[test]
fn a_transport_is_set_to_what_it_was_told() {
    let plain = SecsGemTransport::new("0.0.0.0:5000");
    assert_eq!(plain.bind_address(), "0.0.0.0:5000");
    assert_eq!((plain.session_id(), plain.timeout()), (0xFFFF, None));
    let timeout = Duration::from_millis(1500);
    let set = plain.with_session(3).timing_out_after(timeout);
    assert_eq!((set.session_id(), set.timeout()), (3, Some(timeout)));
    assert_eq!(set.bind_address(), "0.0.0.0:5000");
    let near = set.awaiting_reply().near_end(Duration::from_secs(9));
    assert_eq!(near.bind_address(), "127.0.0.1:0");
    assert_eq!(near.session_id(), 3);
    assert_eq!(near.timeout(), Some(Duration::from_secs(9)));
    assert!(!near.resolve("tool", None).expect("bare").3);
    let loopback = SecsGemTransport::loopback(Duration::from_secs(9));
    assert_eq!(loopback.clone().session_id(), 0xFFFF);
    assert_eq!(loopback.timeout(), near.timeout());
}

fn named(authority: &str) -> Result<(String, u8, u8, bool), Error> {
    node().resolve(&format!("secs-gem://{authority}"), Some(authority))
}

#[test]
fn a_query_sets_what_it_names_and_passes_over_the_rest() {
    let plain = |address: &str| Ok((address.to_string(), 6, 11, false));
    assert_eq!(named("tool"), plain("tool"));
    assert_eq!(named("tool?"), plain("tool"));
    assert_eq!(named("tool?&&"), plain("tool"));
    assert_eq!(named(""), plain(""));
    assert_eq!(named("tool?session=1&Stream=3"), plain("tool"));
    assert_eq!(
        named("tool?stream=+007&stream=9&wait=200&function=0"),
        Ok(("tool".into(), 9, 0, true))
    );
    let waiting = node().awaiting_reply();
    assert!(
        !waiting
            .resolve("secs-gem://tool?wait=0", Some("tool?wait=0"))
            .expect("wait=0")
            .3
    );
    assert!(waiting.resolve("tool", None).expect("bare").3);
}

#[test]
fn a_setting_that_is_not_a_number_of_one_byte_is_refused() {
    for (pair, key, value) in [
        ("stream=x", "stream", "x"),
        ("stream", "stream", ""),
        ("stream=", "stream", ""),
        ("=", "", ""),
        ("stream=+", "stream", "+"),
        ("stream=-1", "stream", "-1"),
        ("stream=256", "stream", "256"),
        ("function= 1", "function", " 1"),
        ("wait=true", "wait", "true"),
        ("other=1=2", "other", "1=2"),
        ("wait=1?stream=2", "wait", "1?stream=2"),
        ("stream=1&function=99999999999999999999999", "function", "99999999999999999999999"),
    ] {
        assert_eq!(
            named(&format!("tool?{pair}")),
            Err(Error::NotANumber {
                key: key.into(),
                value: value.into(),
            })
        );
    }
}

#[test]
fn an_origin_names_its_message_where_the_session_id_fits_a_byte() {
    let (_, equipment) = selected(&node(), "127.0.0.1:5000");
    let origin = equipment.origin(&secs_gem::Header::data(255, 5, 1, false, 9));
    let authority = origin.strip_prefix("secs-gem://").expect("the scheme");
    assert_eq!(named(authority), Ok((NEAR.into(), 5, 1, false)));
    let origin = equipment.origin(&secs_gem::Header::data(256, 5, 1, false, 9));
    let authority = origin.strip_prefix("secs-gem://").expect("the scheme");
    assert_eq!(
        named(authority),
        Err(Error::NotANumber {
            key: "session".into(),
            value: "256".into(),
        })
    );
}
