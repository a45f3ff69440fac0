use secs_gem::number::{split, write_numbers};
use secs_gem::target::{read_authority, Settings};
use secs_gem::text::{characters, find, parse_byte, push_numeral};
use secs_gem::wire::{get, put};
use secs_gem::Error;

#[test]
fn a_numeral_is_appended_in_its_base() {
    let mut text = String::from("n=");
    push_numeral(&mut text, 0, 10);
    push_numeral(&mut text, 65_535, 10);
    push_numeral(&mut text, 0o77, 8);
    assert_eq!(text, "n=06553577");
}

#[test]
fn a_byte_is_read_from_its_digits() {
    for (text, number) in [
        ("0", Some(0)),
        ("255", Some(255)),
        ("+255", Some(255)),
        ("000000000000000000000000007", Some(7)),
        ("256", None),
        ("", None),
        ("+", None),
        ("++1", None),
        ("-0", None),
        ("1x", None),
        ("٣", None),
    ] {
        let chars = characters(text);
        assert_eq!(parse_byte(&chars, 0, chars.len()), number, "{text}");
        assert_eq!(text.parse().ok(), number, "{text}");
    }
}

#[test]
fn a_separator_is_found_where_it_stands_first() {
    let chars = characters("ab=c=d");
    assert_eq!(chars, ['a', 'b', '=', 'c', '=', 'd']);
    assert_eq!(find(&chars, 0, 6, '='), 2);
    assert_eq!(find(&chars, 3, 6, '='), 4);
    assert_eq!(find(&chars, 3, 4, '='), 4);
    assert_eq!(find(&chars, 0, 6, '&'), 6);
}

#[test]
fn values_are_put_and_got_big_endian() {
    let mut bytes = vec![9];
    put(&mut bytes, 0x0102_03, 3);
    assert_eq!(bytes, [9, 1, 2, 3]);
    assert_eq!(get(&bytes, 1, 3), 0x0102_03);
    assert_eq!(get(&bytes, 0, 0), 0);
    put(&mut bytes, u64::MAX, 8);
    assert_eq!(get(&bytes, 4, 8), u64::MAX);
}

#[test]
fn numbers_are_what_their_bytes_say() {
    assert_eq!(write_numbers(&vec![-2i16, 300]), [0xFF, 0xFE, 1, 0x2C]);
    assert_eq!(split::<i16>(&[0xFF, 0xFE, 1, 0x2C]), Ok(vec![-2, 300]));
    assert_eq!(split::<u32>(&[]), Ok(vec![]));
    assert_eq!(
        split::<u32>(&[1, 2, 3]),
        Err(Error::UnevenValues {
            length: 3,
            width: 4
        })
    );
    for value in [i64::MIN, -1, 0, 1, i64::MAX] {
        let bytes = write_numbers(&vec![value]);
        assert_eq!(bytes, value.to_be_bytes());
        assert_eq!(split(&bytes), Ok(vec![value]));
    }
}

#[test]
fn an_authority_is_an_address_and_settings() {
    assert_eq!(
        read_authority("[::1]:5000?function=13&stream=1", true),
        Ok((
            "[::1]:5000".into(),
            Settings {
                stream: 1,
                function: 13,
                wait: true
            }
        ))
    );
}
