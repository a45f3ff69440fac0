use secs_gem::item::{decode, decode_at, encode, encode_into, MAX_DEPTH};
use secs_gem::{Error, Item};

#[test]
fn every_format_round_trips() {
    let body = Item::List(vec![
        Item::U4(vec![1]),
        Item::List(vec![Item::List(vec![
            Item::Ascii("LOT-42".into()),
            Item::Binary(vec![0, 255]),
            Item::Boolean(vec![true, false]),
            Item::I1(vec![-1, 127]),
            Item::I2(vec![-2, 300]),
            Item::I4(vec![-70_000]),
            Item::I8(vec![i64::MIN]),
            Item::U1(vec![200]),
            Item::U2(vec![65_535]),
            Item::U4(vec![4_000_000_000]),
            Item::U8(vec![u64::MAX]),
            Item::F4(vec![1.5f32.to_bits()]),
            Item::F8(vec![(-0.25f64).to_bits()]),
            Item::List(Vec::new()),
        ])]),
    ]);
    let bytes = encode(&body);
    assert_eq!(&bytes[..2], &[1, 2], "a list of two");
    assert_eq!(&bytes[2..8], &[0o54 << 2 | 1, 4, 0, 0, 0, 1], "U4 1");
    assert_eq!(decode(&bytes).expect("decode"), body);
    let long = Item::Binary(vec![7u8; 70_000]);
    let bytes = encode(&long);
    assert_eq!(&bytes[..4], &[0o10 << 2 | 3, 0x01, 0x11, 0x70]);
    assert_eq!(decode(&bytes).expect("three length bytes"), long);
    let mid = encode(&Item::Ascii("x".repeat(300)));
    assert_eq!(&mid[..3], &[0o20 << 2 | 2, 0x01, 0x2C]);
}

#[test]
fn what_is_not_secs_ii_is_refused() {
    assert!(decode(&[]).is_err(), "empty");
    assert!(decode(&[0o20 << 2]).is_err(), "no length bytes");
    assert!(decode(&[0o20 << 2 | 2, 1]).is_err(), "cut in length");
    assert!(decode(&[0o20 << 2 | 1, 5, b'a']).is_err(), "short");
    assert!(
        decode(&[0o52 << 2 | 1, 3, 0, 0, 0]).is_err(),
        "U2 of 3 bytes"
    );
    assert!(decode(&[0o77 << 2 | 1, 0]).is_err(), "no such format");
    assert!(decode(&[1, 1]).is_err(), "a list of one, empty");
    assert!(decode(&[0o51 << 2 | 1, 1, 9, 9]).is_err(), "left over");
    let mut deep = [1, 1].repeat(70);
    deep.extend_from_slice(&[1, 0]);
    assert!(!decode(&deep).expect_err("too deep").retryable());
}

#[test]
fn each_refusal_of_an_item_has_its_reason() {
    assert_eq!(decode(&[]), Err(Error::CutAtFormatByte));
    assert_eq!(decode(&[0o20 << 2]), Err(Error::NoLengthBytes));
    assert_eq!(decode(&[0o20 << 2 | 2, 1]), Err(Error::CutInItemLength));
    assert_eq!(
        decode(&[0o20 << 2 | 1, 5, b'a']),
        Err(Error::LongerThanWhatFollows)
    );
    assert_eq!(
        decode(&[0o52 << 2 | 1, 3, 0, 0, 0]),
        Err(Error::UnevenValues {
            length: 3,
            width: 2
        })
    );
    assert_eq!(
        decode(&[0o40 << 2 | 1, 4, 0, 0, 0, 0]),
        Err(Error::UnevenValues {
            length: 4,
            width: 8
        })
    );
    assert_eq!(decode(&[0o77 << 2 | 1, 0]), Err(Error::UnknownFormat(0o77)));
    assert_eq!(
        decode(&[0o77 << 2 | 1, 1]),
        Err(Error::LongerThanWhatFollows)
    );
    assert_eq!(decode(&[1, 1]), Err(Error::CutAtFormatByte));
    assert_eq!(
        decode(&[0o51 << 2 | 1, 1, 9, 9]),
        Err(Error::BytesAfterItem)
    );
    let mut deep = [1, 1].repeat(70);
    deep.extend_from_slice(&[1, 0]);
    assert_eq!(decode(&deep), Err(Error::NestedTooDeep));
}

fn nested(lists: usize) -> Item {
    let mut item = Item::U1(vec![1]);
    for _ in 0..lists {
        item = Item::List(vec![item]);
    }
    item
}

#[test]
fn lists_nest_as_deep_as_is_read_and_no_deeper() {
    let deepest = nested(MAX_DEPTH);
    assert_eq!(decode(&encode(&deepest)), Ok(deepest));
    assert_eq!(
        decode(&encode(&nested(MAX_DEPTH + 1))),
        Err(Error::NestedTooDeep)
    );
}

#[test]
fn numbers_are_big_endian_and_signed_ones_twos_complement() {
    assert_eq!(
        encode(&Item::I2(vec![-2, 300])),
        [0o32 << 2 | 1, 4, 0xFF, 0xFE, 0x01, 0x2C]
    );
    assert_eq!(encode(&Item::I1(vec![-128])), [0o31 << 2 | 1, 1, 0x80]);
    assert_eq!(
        encode(&Item::I4(vec![-70_000])),
        [0o34 << 2 | 1, 4, 0xFF, 0xFE, 0xEE, 0x90]
    );
    assert_eq!(
        encode(&Item::I8(vec![i64::MIN])),
        [0o30 << 2 | 1, 8, 0x80, 0, 0, 0, 0, 0, 0, 0]
    );
    assert_eq!(
        encode(&Item::U8(vec![0x0102_0304_0506_0708])),
        [0o50 << 2 | 1, 8, 1, 2, 3, 4, 5, 6, 7, 8]
    );
    assert_eq!(encode(&Item::U2(vec![258])), [0o52 << 2 | 1, 2, 1, 2]);
    assert_eq!(
        encode(&Item::F4(vec![1.5f32.to_bits()])),
        [0o44 << 2 | 1, 4, 0x3F, 0xC0, 0, 0]
    );
    assert_eq!(
        encode(&Item::F8(vec![(-0.25f64).to_bits()])),
        [0o40 << 2 | 1, 8, 0xBF, 0xD0, 0, 0, 0, 0, 0, 0]
    );
    for value in [i16::MIN, -1, 0, 1, i16::MAX] {
        let bytes = [
            0o32 << 2 | 1,
            2,
            value.to_be_bytes()[0],
            value.to_be_bytes()[1],
        ];
        assert_eq!(decode(&bytes), Ok(Item::I2(vec![value])));
    }
}

#[test]
fn a_length_has_as_few_bytes_as_it_needs() {
    assert_eq!(encode(&Item::Binary(vec![0; 255]))[..2], [0o10 << 2 | 1, 255]);
    assert_eq!(
        encode(&Item::Binary(vec![0; 256]))[..3],
        [0o10 << 2 | 2, 1, 0]
    );
    assert_eq!(
        encode(&Item::Binary(vec![0; 65_535]))[..3],
        [0o10 << 2 | 2, 255, 255]
    );
    assert_eq!(
        encode(&Item::Binary(vec![0; 65_536]))[..4],
        [0o10 << 2 | 3, 1, 0, 0]
    );
    let many = Item::List(vec![Item::Boolean(Vec::new()); 300]);
    let bytes = encode(&many);
    assert_eq!(bytes[..3], [2, 1, 44]);
    assert_eq!(bytes.len(), 3 + 300 * 2);
    assert_eq!(decode(&bytes), Ok(many));
}

#[test]
fn a_length_past_three_bytes_keeps_its_low_bits() {
    let bytes = encode(&Item::Binary(vec![0; 0x0100_0005]));
    assert_eq!(bytes[..2], [0o10 << 2 | 1, 5]);
    assert_eq!(bytes.len(), 2 + 0x0100_0005);
    assert_eq!(decode(&bytes), Err(Error::BytesAfterItem));
}

#[test]
fn an_item_is_read_however_its_length_is_written() {
    let item = decode(&[0o51 << 2 | 3, 0, 0, 1, 9]).expect("three length bytes");
    assert_eq!(item, Item::U1(vec![9]));
    assert_eq!(decode(&encode(&item)), Ok(item));
    assert_eq!(
        decode(&[0o11 << 2 | 1, 3, 0, 1, 2]),
        Ok(Item::Boolean(vec![false, true, true]))
    );
}

#[test]
fn text_is_utf_8_and_what_is_not_is_mended() {
    let item = Item::Ascii("Größe 5 µm".into());
    assert_eq!(decode(&encode(&item)), Ok(item));
    assert_eq!(
        decode(&[0o20 << 2 | 1, 3, b'a', 0xFF, b'b']),
        Ok(Item::Ascii("a\u{FFFD}b".into()))
    );
}

#[test]
fn every_cut_of_an_item_and_anything_behind_it_is_refused() {
    let item = Item::List(vec![
        Item::Ascii("CEID".into()),
        Item::List(vec![Item::U2(vec![1, 2]), Item::Boolean(vec![true])]),
        Item::F4(vec![0]),
    ]);
    let mut bytes = encode(&item);
    for count in 0..bytes.len() {
        assert!(decode(&bytes[..count]).is_err(), "{count}");
    }
    bytes.push(0);
    assert_eq!(decode(&bytes), Err(Error::BytesAfterItem));
}

#[test]
fn a_clone_says_the_same() {
    let item = Item::List(vec![
        Item::I4(vec![5]),
        Item::List(vec![Item::Ascii("x".into()), Item::U8(vec![9])]),
    ]);
    assert_eq!(item.clone(), item);
}

#[test]
fn items_that_differ_are_written_apart() {
    let one = encode(&Item::U4(vec![7]));
    assert_ne!(one, encode(&Item::I4(vec![7])));
    assert_ne!(one, encode(&Item::U4(vec![8])));
    assert_ne!(one, encode(&Item::List(vec![Item::U4(vec![7])])));
}

#[test]
fn an_item_is_appended_behind_what_is_there() {
    let item = Item::List(vec![Item::U1(vec![3])]);
    let mut out = b"before".to_vec();
    encode_into(&item, &mut out);
    assert_eq!(out, [&b"before"[..], &encode(&item)].concat());
}

#[test]
fn reading_somewhere_moves_as_far_as_was_understood() {
    let bytes = [9, 9, 1, 2, 0o51 << 2 | 1, 1, 7, 0o20 << 2 | 1, 1, b'x', 9];
    let list = Item::List(vec![Item::U1(vec![7]), Item::Ascii("x".into())]);
    let mut at = 2;
    assert_eq!(decode_at(&bytes, &mut at, 5), Ok(list.clone()));
    assert_eq!(at, 10);
    assert_eq!(decode(&bytes[2..10]), Ok(list));
    for (bytes, from, depth, error, left) in [
        (&bytes[..], 11, 0, Error::CutAtFormatByte, 11),
        (&bytes[..], 99, 0, Error::CutAtFormatByte, 99),
        (&bytes[..], 2, MAX_DEPTH + 1, Error::NestedTooDeep, 2),
        (&bytes[..], 2, usize::MAX, Error::NestedTooDeep, 2),
        (&bytes[..], 2, MAX_DEPTH, Error::NestedTooDeep, 4),
        (&[0o51 << 2][..], 0, 0, Error::NoLengthBytes, 0),
        (&[0o51 << 2 | 2, 0][..], 0, 0, Error::CutInItemLength, 0),
        (&[0o51 << 2 | 1, 3, 0][..], 0, 0, Error::LongerThanWhatFollows, 2),
        (&[0o77 << 2 | 1, 1, 0][..], 0, 0, Error::UnknownFormat(0o77), 3),
        (&[1, 2, 0o51 << 2 | 1, 0, 1][..], 0, 0, Error::CutInItemLength, 4),
    ] {
        let mut at = from;
        assert_eq!(decode_at(bytes, &mut at, depth), Err(error));
        assert_eq!(at, left);
    }
}

#[test]
fn an_item_is_read_the_same_under_fewer_lists() {
    let bytes = encode(&nested(3));
    for depth in 0..=MAX_DEPTH - 3 {
        let mut at = 0;
        assert_eq!(decode_at(&bytes, &mut at, depth), Ok(nested(3)));
        assert_eq!(at, bytes.len());
    }
    assert_eq!(
        decode_at(&bytes, &mut 0, MAX_DEPTH - 2),
        Err(Error::NestedTooDeep)
    );
}

#[test]
fn no_bytes_of_an_item_are_fewer_than_those_it_is_written_in() {
    let long = [3, 0, 0, 2, 0o51 << 2 | 2, 0, 1, 9, 0o20 << 2 | 3, 0, 0, 1, b'x'];
    let item = decode(&long).expect("decode");
    let short = [1, 2, 0o51 << 2 | 1, 1, 9, 0o20 << 2 | 1, 1, b'x'];
    assert_eq!(encode(&item), short);
    let mended = decode(&[0o20 << 2 | 1, 1, 0xFF]).expect("decode");
    assert_eq!(encode(&mended).len(), 5);
}
