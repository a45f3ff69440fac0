//! What each byte of an item is, and what each byte of one is read as.

use crate::error::Error;
use crate::item::{
    flag_bytes, head_bytes, item_at, item_in, items_at, items_reached, list_bytes, mended_text,
    reached, value_in, Item, ItemView,
};
use crate::number::{number_bytes, numbers_in, values_split};
use crate::wire;
use crate::wire::be_value;
use vstd::prelude::*;
use vstd::utf8::{decode_utf8, encode_utf8, valid_utf8};

verus! {

/// An item says what it holds: a list what its elements say, in order, and
/// every other item its values.
pub proof fn item_says(item: Item)
    ensures
        item matches Item::List(items) ==> {
            &&& item@ matches ItemView::List(views)
            &&& views.len() == items@.len()
            &&& forall|i: int| 0 <= i < items@.len() ==> #[trigger] views[i] == items@[i]@
        },
        item matches Item::Ascii(held) ==> item@ == ItemView::Ascii(held@),
        item matches Item::Binary(held) ==> item@ == ItemView::Binary(held@),
        item matches Item::Boolean(held) ==> item@ == ItemView::Boolean(held@),
        item matches Item::I1(held) ==> item@ == ItemView::I1(held@),
        item matches Item::I2(held) ==> item@ == ItemView::I2(held@),
        item matches Item::I4(held) ==> item@ == ItemView::I4(held@),
        item matches Item::I8(held) ==> item@ == ItemView::I8(held@),
        item matches Item::U1(held) ==> item@ == ItemView::U1(held@),
        item matches Item::U2(held) ==> item@ == ItemView::U2(held@),
        item matches Item::U4(held) ==> item@ == ItemView::U4(held@),
        item matches Item::U8(held) ==> item@ == ItemView::U8(held@),
        item matches Item::F4(held) ==> item@ == ItemView::F4(held@),
        item matches Item::F8(held) ==> item@ == ItemView::F8(held@),
{
}

/// The bytes of an item that is no list: the format code E5 gives its kind,
/// the length of its value, and its value.
pub proof fn item_written(item: ItemView)
    ensures
        item matches ItemView::Ascii(held) ==> item.bytes() == head_bytes(0o20, encode_utf8(held).len())
            + encode_utf8(held),
        item matches ItemView::Binary(held) ==> item.bytes() == head_bytes(0o10, held.len())
            + held,
        item matches ItemView::Boolean(held) ==> item.bytes() == head_bytes(0o11, flag_bytes(held).len())
            + flag_bytes(held),
        item matches ItemView::I1(held) ==> item.bytes() == head_bytes(0o31, number_bytes(held).len())
            + number_bytes(held),
        item matches ItemView::I2(held) ==> item.bytes() == head_bytes(0o32, number_bytes(held).len())
            + number_bytes(held),
        item matches ItemView::I4(held) ==> item.bytes() == head_bytes(0o34, number_bytes(held).len())
            + number_bytes(held),
        item matches ItemView::I8(held) ==> item.bytes() == head_bytes(0o30, number_bytes(held).len())
            + number_bytes(held),
        item matches ItemView::U1(held) ==> item.bytes() == head_bytes(0o51, held.len())
            + held,
        item matches ItemView::U2(held) ==> item.bytes() == head_bytes(0o52, number_bytes(held).len())
            + number_bytes(held),
        item matches ItemView::U4(held) ==> item.bytes() == head_bytes(0o54, number_bytes(held).len())
            + number_bytes(held),
        item matches ItemView::U8(held) ==> item.bytes() == head_bytes(0o50, number_bytes(held).len())
            + number_bytes(held),
        item matches ItemView::F4(held) ==> item.bytes() == head_bytes(0o44, number_bytes(held).len())
            + number_bytes(held),
        item matches ItemView::F8(held) ==> item.bytes() == head_bytes(0o40, number_bytes(held).len())
            + number_bytes(held),
{
}

/// The bytes of a list: format code 0 and how many elements it has, and the
/// elements one behind the other.
pub proof fn list_written(items: Seq<ItemView>)
    ensures
        ItemView::List(items).bytes() == head_bytes(0, items.len()) + list_bytes(items),
        items.len() == 0 ==> list_bytes(items).len() == 0,
        items.len() == 1 ==> list_bytes(items) == items[0].bytes(),
{
    if items.len() == 1 {
        assert(items.skip(1) =~= Seq::empty());
        assert(list_bytes(items.skip(1)) =~= Seq::empty());
        assert(list_bytes(items) =~= items[0].bytes());
    }
}

/// Elements behind others are written behind them.
pub proof fn lists_joined(first: Seq<ItemView>, second: Seq<ItemView>)
    ensures
        list_bytes(first + second) == list_bytes(first) + list_bytes(second),
    decreases first.len(),
{
    if first.len() == 0 {
        assert(first + second =~= second);
        assert(list_bytes(first) + list_bytes(second) =~= list_bytes(second));
    } else {
        lists_joined(first.skip(1), second);
        assert((first + second).skip(1) =~= first.skip(1) + second);
        assert(list_bytes(first + second) =~= list_bytes(first) + list_bytes(second));
    }
}

/// The bytes before a value: the format code in the upper six bits of the
/// first and how many length bytes follow in the lower two; then the length,
/// the most significant byte first, in no more bytes than it needs. A length
/// over 24 bits keeps its lower 24, and one over 32 bits is said to be the
/// most.
pub proof fn head_written(format: u8, length: nat)
    requires
        format < 64,
    ensures
        ({
            let head = head_bytes(format, length);
            let said: int = if length <= 0xFFFF_FFFF {
                length as int % 0x100_0000
            } else {
                0xFF_FFFF
            };
            &&& said < 0x100 ==> {
                &&& head.len() == 2
                &&& head[0] == 4 * format + 1
                &&& head[1] == said
            }
            &&& 0x100 <= said < 0x1_0000 ==> {
                &&& head.len() == 3
                &&& head[0] == 4 * format + 2
                &&& head[1] == said / 0x100
                &&& head[2] == said % 0x100
            }
            &&& 0x1_0000 <= said ==> {
                &&& head.len() == 4
                &&& head[0] == 4 * format + 3
                &&& head[1] == said / 0x1_0000
                &&& head[2] == said / 0x100 % 0x100
                &&& head[3] == said % 0x100
            }
        }),
{
    let said = if length <= 0xFFFF_FFFF {
        length % 0x100_0000
    } else {
        0xFF_FFFF
    };
    wire::bytes_by_place(said);
}

/// A flag is written as 1 where it is set and as 0 where it is not.
pub proof fn flags_written(flags: Seq<bool>, i: int)
    requires
        0 <= i < flags.len(),
    ensures
        flag_bytes(flags).len() == flags.len(),
        flags[i] ==> flag_bytes(flags)[i] == 1,
        !flags[i] ==> flag_bytes(flags)[i] == 0,
{
}

/// What a value is read as under each format code, and that under any other it
/// is refused. A flag is set by any byte but 0.
pub proof fn value_read(format: u8, data: Seq<u8>)
    ensures
        value_in(0o20, data) == Ok::<ItemView, Error>(
            ItemView::Ascii(
                if valid_utf8(data) {
                    decode_utf8(data)
                } else {
                    mended_text(data)
                },
            ),
        ),
        value_in(0o10, data) == Ok::<ItemView, Error>(ItemView::Binary(data)),
        value_in(0o51, data) == Ok::<ItemView, Error>(ItemView::U1(data)),
        ({
            &&& value_in(0o11, data) matches Ok(ItemView::Boolean(flags))
            &&& flags.len() == data.len()
            &&& forall|i: int| 0 <= i < data.len() ==> (#[trigger] flags[i] <==> data[i] != 0)
        }),
        value_in(0o31, data) == Ok::<ItemView, Error>(ItemView::I1(numbers_in::<i8>(data))),
        value_in(0o32, data) == if data.len() % 2 == 0 {
            Ok::<ItemView, Error>(ItemView::I2(numbers_in::<i16>(data)))
        } else {
            Err::<ItemView, Error>(Error::UnevenValues { length: data.len() as usize, width: 2 })
        },
        value_in(0o34, data) == if data.len() % 4 == 0 {
            Ok::<ItemView, Error>(ItemView::I4(numbers_in::<i32>(data)))
        } else {
            Err::<ItemView, Error>(Error::UnevenValues { length: data.len() as usize, width: 4 })
        },
        value_in(0o30, data) == if data.len() % 8 == 0 {
            Ok::<ItemView, Error>(ItemView::I8(numbers_in::<i64>(data)))
        } else {
            Err::<ItemView, Error>(Error::UnevenValues { length: data.len() as usize, width: 8 })
        },
        value_in(0o52, data) == if data.len() % 2 == 0 {
            Ok::<ItemView, Error>(ItemView::U2(numbers_in::<u16>(data)))
        } else {
            Err::<ItemView, Error>(Error::UnevenValues { length: data.len() as usize, width: 2 })
        },
        value_in(0o54, data) == if data.len() % 4 == 0 {
            Ok::<ItemView, Error>(ItemView::U4(numbers_in::<u32>(data)))
        } else {
            Err::<ItemView, Error>(Error::UnevenValues { length: data.len() as usize, width: 4 })
        },
        value_in(0o50, data) == if data.len() % 8 == 0 {
            Ok::<ItemView, Error>(ItemView::U8(numbers_in::<u64>(data)))
        } else {
            Err::<ItemView, Error>(Error::UnevenValues { length: data.len() as usize, width: 8 })
        },
        value_in(0o44, data) == if data.len() % 4 == 0 {
            Ok::<ItemView, Error>(ItemView::F4(numbers_in::<u32>(data)))
        } else {
            Err::<ItemView, Error>(Error::UnevenValues { length: data.len() as usize, width: 4 })
        },
        value_in(0o40, data) == if data.len() % 8 == 0 {
            Ok::<ItemView, Error>(ItemView::F8(numbers_in::<u64>(data)))
        } else {
            Err::<ItemView, Error>(Error::UnevenValues { length: data.len() as usize, width: 8 })
        },
        format != 0o20
            && format != 0o10
            && format != 0o11
            && format != 0o31
            && format != 0o32
            && format != 0o34
            && format != 0o30
            && format != 0o51
            && format != 0o52
            && format != 0o54
            && format != 0o50
            && format != 0o44
            && format != 0o40 ==> value_in(format, data)
            == Err::<ItemView, Error>(Error::UnknownFormat(format)),
{
    let flags = data.map_values(|byte: u8| byte != 0);
    assert(value_in(0o11, data) == Ok::<ItemView, Error>(ItemView::Boolean(flags)));
    values_split::<i8>(data);
    values_split::<i16>(data);
    values_split::<i32>(data);
    values_split::<i64>(data);
    values_split::<u16>(data);
    values_split::<u32>(data);
    values_split::<u64>(data);
}

/// What stands at a place is read as: the upper six bits of its first byte are
/// the format code, the lower two say how many length bytes follow, and these
/// the length of the value or, under format code 0, how many items follow.
/// Refused are an item under more than 64 lists, one cut off at its first byte,
/// in its length or in its value, and one without length bytes.
pub proof fn item_read(bytes: Seq<u8>, at: int, depth: int)
    requires
        0 <= at,
    ensures
        depth > 64 ==> item_at(bytes, at, depth) == Err::<(ItemView, int), Error>(
            Error::NestedTooDeep,
        ),
        depth <= 64 && at >= bytes.len() ==> item_at(bytes, at, depth) == Err::<
            (ItemView, int),
            Error,
        >(Error::CutAtFormatByte),
        depth <= 64 && at < bytes.len() ==> ({
            let count = bytes[at] % 4;
            let format = bytes[at] / 4;
            let start = at + 1 + count;
            let length: int = if count == 1 {
                bytes[at + 1] as int
            } else if count == 2 {
                0x100 * bytes[at + 1] + bytes[at + 2]
            } else {
                0x1_0000 * bytes[at + 1] + 0x100 * bytes[at + 2] + bytes[at + 3]
            };
            &&& count == 0 ==> item_at(bytes, at, depth) == Err::<(ItemView, int), Error>(
                Error::NoLengthBytes,
            )
            &&& count > 0 && start > bytes.len() ==> item_at(bytes, at, depth) == Err::<
                (ItemView, int),
                Error,
            >(Error::CutInItemLength)
            &&& count > 0 && start <= bytes.len() && format == 0 ==> item_at(bytes, at, depth)
                == match items_at(bytes, start, length as nat, depth + 1) {
                Ok((items, end)) => Ok::<(ItemView, int), Error>((ItemView::List(items), end)),
                Err(error) => Err::<(ItemView, int), Error>(error),
            }
            &&& count > 0 && start <= bytes.len() && format != 0 && start + length > bytes.len()
                ==> item_at(bytes, at, depth) == Err::<(ItemView, int), Error>(
                Error::LongerThanWhatFollows,
            )
            &&& count > 0 && start <= bytes.len() && format != 0 && start + length <= bytes.len()
                ==> item_at(bytes, at, depth) == match value_in(
                format,
                bytes.subrange(start, start + length),
            ) {
                Ok(item) => Ok::<(ItemView, int), Error>((item, start + length)),
                Err(error) => Err::<(ItemView, int), Error>(error),
            }
        }),
{
    if depth <= 64 && at < bytes.len() {
        length_read(bytes, at);
    }
}

/// The length that an item announces, by its length bytes.
proof fn length_read(bytes: Seq<u8>, at: int)
    requires
        0 <= at < bytes.len(),
    ensures
        ({
            let count = bytes[at] % 4;
            let length = be_value(bytes.subrange(at + 1, at + 1 + count));
            at + 1 + count <= bytes.len() ==> {
                &&& count == 1 ==> length == bytes[at + 1]
                &&& count == 2 ==> length == 0x100 * bytes[at + 1] + bytes[at + 2]
                &&& count == 3 ==> length == 0x1_0000 * bytes[at + 1] + 0x100 * bytes[at + 2]
                    + bytes[at + 3]
            }
        }),
{
    let count = bytes[at] % 4;
    if at + 1 + count <= bytes.len() {
        wire::value_by_place(bytes.subrange(at + 1, at + 1 + count));
    }
}

/// Whether `items` stand in `bytes` one behind the other, under `depth` lists,
/// between the places `ends`.
pub open spec fn in_a_row(
    bytes: Seq<u8>,
    depth: int,
    items: Seq<ItemView>,
    ends: Seq<int>,
) -> bool {
    &&& ends.len() == items.len() + 1
    &&& forall|i: int|
        0 <= i < items.len() ==> item_at(bytes, ends[i], depth) == Ok::<(ItemView, int), Error>(
            (#[trigger] items[i], ends[i + 1]),
        )
}

/// The items of a list are read one behind the other, each from where the one
/// before it ends, and as many as are due. The list is refused where one of
/// them is, for that one's reason, and reading leaves off where it does there.
pub proof fn items_read(bytes: Seq<u8>, at: int, count: nat, depth: int)
    ensures
        items_at(bytes, at, count, depth) matches Ok((items, end)) ==> {
            &&& items.len() == count
            &&& items_reached(bytes, at, count, depth) == end
            &&& exists|ends: Seq<int>|
                ends[0] == at && ends.last() == end && #[trigger] in_a_row(
                    bytes,
                    depth,
                    items,
                    ends,
                )
        },
        items_at(bytes, at, count, depth) matches Err(error) ==> exists|
            items: Seq<ItemView>,
            ends: Seq<int>,
        |
            {
                &&& items.len() < count
                &&& ends[0] == at
                &&& #[trigger] in_a_row(bytes, depth, items, ends)
                &&& item_at(bytes, ends.last(), depth) == Err::<(ItemView, int), Error>(error)
                &&& items_reached(bytes, at, count, depth) == reached(bytes, ends.last(), depth)
            },
    decreases count,
{
    let none = Seq::<ItemView>::empty();
    let here = seq![at];
    assert(in_a_row(bytes, depth, none, here));
    assert(here[0] == at && here.last() == at);
    if count > 0 {
        match item_at(bytes, at, depth) {
            Err(_) => {},
            Ok((first, next)) => {
                items_read(bytes, next, (count - 1) as nat, depth);
                match items_at(bytes, next, (count - 1) as nat, depth) {
                    Ok((later, end)) => {
                        let ends = choose|ends: Seq<int>|
                            ends[0] == next && ends.last() == end && #[trigger] in_a_row(
                                bytes,
                                depth,
                                later,
                                ends,
                            );
                        row_prepended(bytes, depth, at, first, later, ends);
                    },
                    Err(error) => {
                        let (later, ends) = choose|later: Seq<ItemView>, ends: Seq<int>|
                            {
                                &&& later.len() < count - 1
                                &&& ends[0] == next
                                &&& #[trigger] in_a_row(bytes, depth, later, ends)
                                &&& item_at(bytes, ends.last(), depth) == Err::<
                                    (ItemView, int),
                                    Error,
                                >(error)
                                &&& items_reached(bytes, next, (count - 1) as nat, depth)
                                    == reached(bytes, ends.last(), depth)
                            };
                        row_prepended(bytes, depth, at, first, later, ends);
                    },
                }
            },
        }
    }
}

/// An item before a row makes a longer row.
proof fn row_prepended(
    bytes: Seq<u8>,
    depth: int,
    at: int,
    first: ItemView,
    later: Seq<ItemView>,
    ends: Seq<int>,
)
    requires
        in_a_row(bytes, depth, later, ends),
        item_at(bytes, at, depth) == Ok::<(ItemView, int), Error>((first, ends[0])),
    ensures
        in_a_row(bytes, depth, seq![first] + later, seq![at] + ends),
        (seq![at] + ends)[0] == at,
        (seq![at] + ends).last() == ends.last(),
{
    let items = seq![first] + later;
    let places = seq![at] + ends;
    assert forall|i: int| 0 <= i < items.len() implies item_at(bytes, places[i], depth) == Ok::<
        (ItemView, int),
        Error,
    >((#[trigger] items[i], places[i + 1])) by {
        if i > 0 {
            assert(items[i] == later[i - 1]);
            assert(places[i] == ends[i - 1]);
            assert(places[i + 1] == ends[i]);
        }
    }
}

/// Bytes hold an item where it stands at their front and ends with them; an
/// item that ends before is refused for what is left, and one that cannot be
/// read for its own reason.
pub proof fn whole_item_read(bytes: Seq<u8>)
    ensures
        item_at(bytes, 0, 0) matches Ok((item, end)) ==> item_in(bytes) == if end == bytes.len() {
            Ok::<ItemView, Error>(item)
        } else {
            Err::<ItemView, Error>(Error::BytesAfterItem)
        },
        item_at(bytes, 0, 0) matches Err(error) ==> item_in(bytes) == Err::<ItemView, Error>(
            error,
        ),
{
}

/// Reading leaves off behind an item that was read; in front of one that is
/// nested too deep or cut off before its value, behind the length of one whose
/// value is cut off, behind a value that is refused, and in a refused list
/// where reading its items does.
pub proof fn place_reached(bytes: Seq<u8>, at: int, depth: int)
    requires
        0 <= at,
    ensures
        item_at(bytes, at, depth) matches Ok((_, end)) ==> reached(bytes, at, depth) == end,
        depth > 64 || at >= bytes.len() ==> reached(bytes, at, depth) == at,
        depth <= 64 && at < bytes.len() ==> ({
            let count = bytes[at] % 4;
            let format = bytes[at] / 4;
            let start = at + 1 + count;
            let length: int = if count == 1 {
                bytes[at + 1] as int
            } else if count == 2 {
                0x100 * bytes[at + 1] + bytes[at + 2]
            } else {
                0x1_0000 * bytes[at + 1] + 0x100 * bytes[at + 2] + bytes[at + 3]
            };
            &&& count == 0 || start > bytes.len() ==> reached(bytes, at, depth) == at
            &&& count > 0 && start <= bytes.len() && format == 0 ==> reached(bytes, at, depth)
                == items_reached(bytes, start, length as nat, depth + 1)
            &&& count > 0 && start <= bytes.len() && format != 0 ==> reached(bytes, at, depth)
                == if start + length > bytes.len() {
                start as int
            } else {
                start + length
            }
        }),
{
    if depth <= 64 && at < bytes.len() {
        length_read(bytes, at);
        if bytes[at] / 4 == 0 {
            let start = at + 1 + bytes[at] % 4;
            items_read(bytes, start, be_value(bytes.subrange(at + 1, start)), depth + 1);
        }
    }
}

} // verus!
