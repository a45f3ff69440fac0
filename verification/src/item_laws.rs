//! What holds of items and their bytes: what was written is read back, and
//! what is cut, continued or nested too deep is refused.

use crate::error::Error;
use crate::item::{
    announced, flag_bytes, head_bytes, item_at, item_in, items_at, items_texts_utf8_at,
    length_width, list_bytes, texts_utf8, texts_utf8_at, value_in, ItemView, ASCII, LIST,
    MAX_DEPTH, MAX_LENGTH,
};
use crate::number::{numbers_read_back, numbers_written_back};
use crate::wire;
use crate::wire::{be_bytes, be_value, capacity};
use vstd::arithmetic::div_mod::lemma_small_mod;
use vstd::prelude::*;
use vstd::utf8::{
    decode_utf8_encode_utf8, encode_utf8, encode_utf8_decode_utf8, encode_utf8_valid_utf8,
    valid_utf8,
};

verus! {

impl ItemView {
    /// Whether every length in the item fits in three length bytes.
    pub open spec fn sized(self) -> bool
        decreases self,
    {
        match self {
            ItemView::List(items) => {
                &&& items.len() <= MAX_LENGTH
                &&& forall|i: int| 0 <= i < items.len() ==> (#[trigger] items[i]).sized()
            },
            _ => self.value_bytes().len() <= MAX_LENGTH,
        }
    }

    /// Whether the length of every text in the item fits in three length
    /// bytes.
    pub open spec fn texts_sized(self) -> bool
        decreases self,
    {
        match self {
            ItemView::List(items) => forall|i: int|
                0 <= i < items.len() ==> (#[trigger] items[i]).texts_sized(),
            ItemView::Ascii(text) => encode_utf8(text).len() <= MAX_LENGTH,
            _ => true,
        }
    }

    /// Whether the item, under `depth` lists, nests no deeper than is read.
    pub open spec fn nests_within(self, depth: int) -> bool
        decreases self,
    {
        &&& depth <= MAX_DEPTH
        &&& match self {
            ItemView::List(items) => forall|i: int|
                0 <= i < items.len() ==> (#[trigger] items[i]).nests_within(depth + 1),
            _ => true,
        }
    }
}

/// The head of an item says its format and its length.
proof fn head_read_back(format: u8, length: nat)
    requires
        format < 64,
        length <= MAX_LENGTH,
    ensures
        head_bytes(format, length).len() == 1 + length_width(length),
        head_bytes(format, length)[0] / 4 == format,
        head_bytes(format, length)[0] % 4 == length_width(length),
        head_bytes(format, length).skip(1) == be_bytes(length, length_width(length)),
        be_value(head_bytes(format, length).skip(1)) == length,
{
    let width = length_width(length);
    lemma_small_mod(length, MAX_LENGTH as nat + 1);
    wire::capacities();
    wire::be_bytes_len(length, width);
    wire::be_value_of_bytes(length, width);
    assert(head_bytes(format, length).skip(1) =~= be_bytes(length, width));
}

/// A head has as few length bytes as the length it announces needs.
pub proof fn length_bytes_fewest(length: nat)
    ensures
        announced(length) < capacity(length_width(announced(length))),
        forall|width: nat| 1 <= width && announced(length) < #[trigger] capacity(width)
            ==> length_width(announced(length)) <= width,
{
    wire::capacities();
    assert forall|width: nat| 1 <= width && announced(length) < #[trigger] capacity(
        width,
    ) implies length_width(announced(length)) <= width by {
        if width < length_width(announced(length)) {
            assert(width == 1 || width == 2);
        }
    }
}

/// A value is what its bytes hold.
proof fn value_read_back(item: ItemView)
    requires
        !(item is List),
    ensures
        value_in(item.format(), item.value_bytes()) == Ok::<ItemView, Error>(item),
{
    match item {
        ItemView::List(_) => {},
        ItemView::Ascii(text) => {
            encode_utf8_valid_utf8(text);
            encode_utf8_decode_utf8(text);
        },
        ItemView::Binary(_) => {},
        ItemView::U1(_) => {},
        ItemView::Boolean(flags) => {
            assert(flag_bytes(flags).map_values(|byte: u8| byte != 0) =~= flags);
        },
        ItemView::I1(values) => numbers_read_back(values),
        ItemView::I2(values) => numbers_read_back(values),
        ItemView::I4(values) => numbers_read_back(values),
        ItemView::I8(values) => numbers_read_back(values),
        ItemView::U2(values) => numbers_read_back(values),
        ItemView::U4(values) => numbers_read_back(values),
        ItemView::U8(values) => numbers_read_back(values),
        ItemView::F4(words) => numbers_read_back(words),
        ItemView::F8(words) => numbers_read_back(words),
    }
}

/// An item that stands somewhere in bytes, under some lists, is read there
/// as it is, or refused where it nests too deep.
proof fn item_read_at(item: ItemView, bytes: Seq<u8>, at: int, depth: int)
    requires
        item.sized(),
        0 <= at,
        at + item.bytes().len() <= bytes.len(),
        bytes.subrange(at, at + item.bytes().len()) == item.bytes(),
    ensures
        item_at(bytes, at, depth) == if item.nests_within(depth) {
            Ok::<(ItemView, int), Error>((item, at + item.bytes().len()))
        } else {
            Err::<(ItemView, int), Error>(Error::NestedTooDeep)
        },
    decreases item,
{
    if depth <= MAX_DEPTH {
        let own = item.bytes();
        let length = match item {
            ItemView::List(items) => items.len(),
            _ => item.value_bytes().len(),
        };
        let head = head_bytes(item.format(), length);
        let width = length_width(length);
        let start = at + 1 + width;
        head_read_back(item.format(), length);
        assert(own.take(1 + width as int) =~= head);
        assert(bytes[at] == bytes.subrange(at, at + own.len())[0]);
        assert(bytes.subrange(at + 1, start) =~= bytes.subrange(at, at + own.len()).subrange(
            1,
            1 + width as int,
        ));
        assert(own.subrange(1, 1 + width as int) =~= head.skip(1));
        match item {
            ItemView::List(items) => {
                assert(bytes.subrange(start, start + list_bytes(items).len())
                    =~= bytes.subrange(at, at + own.len()).skip(1 + width as int));
                assert(own.skip(1 + width as int) =~= list_bytes(items));
                items_read_at(items, bytes, start, depth + 1);
            },
            _ => {
                assert(bytes.subrange(start, start + length) =~= bytes.subrange(
                    at,
                    at + own.len(),
                ).skip(1 + width as int));
                assert(own.skip(1 + width as int) =~= item.value_bytes());
                value_read_back(item);
            },
        }
    }
}

/// Items that stand one behind the other are read as they are, or refused
/// where one nests too deep.
proof fn items_read_at(items: Seq<ItemView>, bytes: Seq<u8>, at: int, depth: int)
    requires
        forall|i: int| 0 <= i < items.len() ==> (#[trigger] items[i]).sized(),
        0 <= at,
        at + list_bytes(items).len() <= bytes.len(),
        bytes.subrange(at, at + list_bytes(items).len()) == list_bytes(items),
    ensures
        items_at(bytes, at, items.len(), depth) == if forall|i: int|
            0 <= i < items.len() ==> (#[trigger] items[i]).nests_within(depth) {
            Ok::<(Seq<ItemView>, int), Error>((items, at + list_bytes(items).len()))
        } else {
            Err::<(Seq<ItemView>, int), Error>(Error::NestedTooDeep)
        },
    decreases items,
{
    if items.len() == 0 {
        assert(items =~= Seq::empty());
    } else {
        let first = items[0];
        let later = items.skip(1);
        let own = list_bytes(items);
        let next = at + first.bytes().len();
        assert(own.take(first.bytes().len() as int) =~= first.bytes());
        assert(own.skip(first.bytes().len() as int) =~= list_bytes(later));
        assert(bytes.subrange(at, next) =~= bytes.subrange(at, at + own.len()).take(
            first.bytes().len() as int,
        ));
        assert(bytes.subrange(next, next + list_bytes(later).len()) =~= bytes.subrange(
            at,
            at + own.len(),
        ).skip(first.bytes().len() as int));
        assert(first.sized());
        assert forall|i: int| 0 <= i < later.len() implies (#[trigger] later[i]).sized() by {
            assert(later[i] == items[i + 1]);
        }
        item_read_at(first, bytes, at, depth);
        items_read_at(later, bytes, next, depth);
        assert(seq![first] + later =~= items);
        assert forall|i: int|
            0 <= i < items.len() && first.nests_within(depth) && (forall|j: int|
                0 <= j < later.len() ==> (#[trigger] later[j]).nests_within(
                    depth,
                )) implies (#[trigger] items[i]).nests_within(depth) by {
            if i > 0 {
                assert(later[i - 1] == items[i]);
            }
        }
        assert forall|j: int|
            0 <= j < later.len() && (forall|i: int|
                0 <= i < items.len() ==> (#[trigger] items[i]).nests_within(
                    depth,
                )) implies (#[trigger] later[j]).nests_within(depth) by {
            assert(later[j] == items[j + 1]);
        }
    }
}

/// An item that was written is read back as it was: this holds of every item
/// whose lengths fit in three bytes and whose lists nest no deeper than
/// [`MAX_DEPTH`].
pub proof fn item_read_back(item: ItemView)
    requires
        item.sized(),
        item.nests_within(0),
    ensures
        item_in(item.bytes()) == Ok::<ItemView, Error>(item),
{
    assert(item.bytes().subrange(0, item.bytes().len() as int) =~= item.bytes());
    item_read_at(item, item.bytes(), 0, 0);
}

/// An item that nests deeper than [`MAX_DEPTH`] is refused for it.
pub proof fn deep_item_refused(item: ItemView)
    requires
        item.sized(),
        !item.nests_within(0),
    ensures
        item_in(item.bytes()) == Err::<ItemView, Error>(Error::NestedTooDeep),
{
    assert(item.bytes().subrange(0, item.bytes().len() as int) =~= item.bytes());
    item_read_at(item, item.bytes(), 0, 0);
}

/// An item with anything behind it is refused for what is left over.
pub proof fn continued_item_refused(item: ItemView, more: Seq<u8>)
    requires
        item.sized(),
        item.nests_within(0),
        more.len() > 0,
    ensures
        item_in(item.bytes() + more) == Err::<ItemView, Error>(Error::BytesAfterItem),
{
    assert((item.bytes() + more).subrange(0, item.bytes().len() as int) =~= item.bytes());
    item_read_at(item, item.bytes() + more, 0, 0);
}

/// Two items that are written alike are one.
pub proof fn items_written_apart(one: ItemView, other: ItemView)
    requires
        one.sized(),
        one.nests_within(0),
        other.sized(),
        other.nests_within(0),
        one.bytes() == other.bytes(),
    ensures
        one == other,
{
    item_read_back(one);
    item_read_back(other);
}

/// An item that is read takes two bytes or more, and ends within the bytes it
/// was read from.
proof fn item_ends(bytes: Seq<u8>, at: int, depth: int)
    requires
        0 <= at,
    ensures
        item_at(bytes, at, depth) matches Ok((_, end)) ==> at + 2 <= end <= bytes.len(),
    decreases MAX_DEPTH + 1 - depth, 0nat,
{
    if item_at(bytes, at, depth) is Ok && bytes[at] / 4 == LIST {
        let start = at + 1 + bytes[at] % 4;
        items_end(bytes, start, be_value(bytes.subrange(at + 1, start)), depth + 1);
    }
}

/// Items that are read end within the bytes they were read from.
proof fn items_end(bytes: Seq<u8>, at: int, count: nat, depth: int)
    requires
        0 <= at <= bytes.len(),
    ensures
        items_at(bytes, at, count, depth) matches Ok((_, end)) ==> at <= end <= bytes.len(),
    decreases MAX_DEPTH + 1 - depth, count,
{
    if count > 0 {
        item_ends(bytes, at, depth);
        if let Ok((_, next)) = item_at(bytes, at, depth) {
            items_end(bytes, next, (count - 1) as nat, depth);
        }
    }
}

/// An item is read by its own bytes alone: where the same bytes stand
/// elsewhere, whatever comes before and behind them, the same item is read,
/// and takes as many.
pub proof fn item_read_elsewhere(
    bytes: Seq<u8>,
    at: int,
    depth: int,
    others: Seq<u8>,
    place: int,
)
    requires
        0 <= at,
        0 <= place,
        item_at(bytes, at, depth) matches Ok((_, end)) && place + (end - at) <= others.len()
            && others.subrange(place, place + (end - at)) == bytes.subrange(at, end),
    ensures
        item_at(bytes, at, depth) matches Ok((item, end)) && item_at(others, place, depth) == Ok::<
            (ItemView, int),
            Error,
        >((item, place + (end - at))),
    decreases MAX_DEPTH + 1 - depth, 0nat,
{
    if let Ok((_, end)) = item_at(bytes, at, depth) {
        let own = bytes.subrange(at, end);
        let width = bytes[at] % 4;
        let start = at + 1 + width;
        let moved = place + 1 + width;
        let length = be_value(bytes.subrange(at + 1, start));
        item_ends(bytes, at, depth);
        assert(own[0] == bytes[at]);
        assert(others[place] == own[0]);
        if bytes[at] / 4 == LIST {
            items_end(bytes, start, length, depth + 1);
        }
        assert(bytes.subrange(at + 1, start) =~= own.subrange(1, start - at));
        assert(others.subrange(place + 1, moved) =~= own.subrange(1, start - at));
        assert(bytes.subrange(start, end) =~= own.skip(start - at));
        assert(others.subrange(moved, moved + (end - start)) =~= own.skip(start - at));
        if bytes[at] / 4 == LIST {
            items_read_elsewhere(bytes, start, length, depth + 1, others, moved);
        }
    }
}

/// Items are read by their own bytes alone.
proof fn items_read_elsewhere(
    bytes: Seq<u8>,
    at: int,
    count: nat,
    depth: int,
    others: Seq<u8>,
    place: int,
)
    requires
        0 <= at <= bytes.len(),
        0 <= place,
        items_at(bytes, at, count, depth) matches Ok((_, end)) && place + (end - at)
            <= others.len() && others.subrange(place, place + (end - at)) == bytes.subrange(
            at,
            end,
        ),
    ensures
        items_at(bytes, at, count, depth) matches Ok((items, end)) && items_at(
            others,
            place,
            count,
            depth,
        ) == Ok::<(Seq<ItemView>, int), Error>((items, place + (end - at))),
    decreases MAX_DEPTH + 1 - depth, count,
{
    if count > 0 {
        if let Ok((_, end)) = items_at(bytes, at, count, depth) {
            if let Ok((_, next)) = item_at(bytes, at, depth) {
                let own = bytes.subrange(at, end);
                let moved = place + (next - at);
                item_ends(bytes, at, depth);
                items_end(bytes, next, (count - 1) as nat, depth);
                assert(bytes.subrange(at, next) =~= own.take(next - at));
                assert(others.subrange(place, moved) =~= own.take(next - at));
                item_read_elsewhere(bytes, at, depth, others, place);
                assert(bytes.subrange(next, end) =~= own.skip(next - at));
                assert(others.subrange(moved, moved + (end - next)) =~= own.skip(next - at));
                items_read_elsewhere(bytes, next, (count - 1) as nat, depth, others, moved);
            }
        }
    }
}

/// An item that is read under some lists is read the same under fewer.
pub proof fn item_read_under_fewer(bytes: Seq<u8>, at: int, depth: int, fewer: int)
    requires
        fewer <= depth,
        item_at(bytes, at, depth) is Ok,
    ensures
        item_at(bytes, at, fewer) == item_at(bytes, at, depth),
    decreases MAX_DEPTH + 1 - depth, 0nat,
{
    if bytes[at] / 4 == LIST {
        let start = at + 1 + bytes[at] % 4;
        items_read_under_fewer(
            bytes,
            start,
            be_value(bytes.subrange(at + 1, start)),
            depth + 1,
            fewer + 1,
        );
    }
}

/// Items that are read under some lists are read the same under fewer.
proof fn items_read_under_fewer(bytes: Seq<u8>, at: int, count: nat, depth: int, fewer: int)
    requires
        fewer <= depth,
        items_at(bytes, at, count, depth) is Ok,
    ensures
        items_at(bytes, at, count, fewer) == items_at(bytes, at, count, depth),
    decreases MAX_DEPTH + 1 - depth, count,
{
    if count > 0 {
        item_read_under_fewer(bytes, at, depth, fewer);
        if let Ok((_, next)) = item_at(bytes, at, depth) {
            items_read_under_fewer(bytes, next, (count - 1) as nat, depth, fewer);
        }
    }
}

/// An item that is read somewhere, under some lists, takes two bytes or more,
/// and is what those bytes hold by themselves.
pub proof fn item_read_alone(bytes: Seq<u8>, at: int, depth: int)
    requires
        0 <= at,
        0 <= depth,
    ensures
        item_at(bytes, at, depth) matches Ok((item, end)) ==> {
            &&& at + 2 <= end <= bytes.len()
            &&& item_in(bytes.subrange(at, end)) == Ok::<ItemView, Error>(item)
        },
{
    item_ends(bytes, at, depth);
    if let Ok((_, end)) = item_at(bytes, at, depth) {
        let own = bytes.subrange(at, end);
        assert(own.subrange(0, end - at) =~= own);
        item_read_elsewhere(bytes, at, depth, own, 0);
        item_read_under_fewer(own, 0, depth, 0);
    }
}

/// An item that is cut off anywhere is refused.
pub proof fn cut_item_refused(item: ItemView, count: int)
    requires
        item.sized(),
        item.nests_within(0),
        0 <= count < item.bytes().len(),
    ensures
        item_in(item.bytes().take(count)) is Err,
{
    let cut = item.bytes().take(count);
    item_ends(cut, 0, 0);
    if let Ok((_, end)) = item_at(cut, 0, 0) {
        assert(item.bytes().subrange(0, end) =~= cut.subrange(0, end));
        item_read_elsewhere(cut, 0, 0, item.bytes(), 0);
    }
    assert(item.bytes().subrange(0, item.bytes().len() as int) =~= item.bytes());
    item_read_at(item, item.bytes(), 0, 0);
}

/// What is read at some depth nests within it.
proof fn read_item_nests_at(bytes: Seq<u8>, at: int, depth: int)
    ensures
        item_at(bytes, at, depth) matches Ok((item, _)) ==> item.nests_within(depth),
    decreases MAX_DEPTH + 1 - depth, 0nat,
{
    if let Ok((item, _)) = item_at(bytes, at, depth) {
        let format = bytes[at] / 4;
        let start = at + 1 + bytes[at] % 4;
        if format == LIST {
            read_items_nest_at(
                bytes,
                start,
                be_value(bytes.subrange(at + 1, start)),
                depth + 1,
            );
        }
    }
}

/// What is read at some depth, one behind the other, nests within it.
proof fn read_items_nest_at(bytes: Seq<u8>, at: int, count: nat, depth: int)
    ensures
        items_at(bytes, at, count, depth) matches Ok((items, _)) ==> forall|i: int|
            0 <= i < items.len() ==> (#[trigger] items[i]).nests_within(depth),
    decreases MAX_DEPTH + 1 - depth, count,
{
    if count > 0 {
        read_item_nests_at(bytes, at, depth);
        if let Ok((_, next)) = item_at(bytes, at, depth) {
            read_items_nest_at(bytes, next, (count - 1) as nat, depth);
        }
    }
}

/// Whatever is read nests no deeper than [`MAX_DEPTH`].
pub proof fn read_item_nests(bytes: Seq<u8>)
    ensures
        item_in(bytes) matches Ok(item) ==> item.nests_within(0),
{
    read_item_nests_at(bytes, 0, 0);
}

/// A value that was read, unless it is a text, is written in as many bytes.
proof fn value_keeps_length(format: u8, data: Seq<u8>)
    ensures
        value_in(format, data) matches Ok(item) ==> {
            &&& !(item is List)
            &&& !(item is Ascii) ==> item.value_bytes().len() == data.len()
        },
{
    if let Ok(item) = value_in(format, data) {
        match item {
            ItemView::I1(_) => numbers_written_back::<i8>(data),
            ItemView::I2(_) => numbers_written_back::<i16>(data),
            ItemView::I4(_) => numbers_written_back::<i32>(data),
            ItemView::I8(_) => numbers_written_back::<i64>(data),
            ItemView::U2(_) => numbers_written_back::<u16>(data),
            ItemView::U4(_) => numbers_written_back::<u32>(data),
            ItemView::U8(_) => numbers_written_back::<u64>(data),
            ItemView::F4(_) => numbers_written_back::<u32>(data),
            ItemView::F8(_) => numbers_written_back::<u64>(data),
            _ => {},
        }
    }
}

/// The lengths of what is read fit, where those of its texts do.
proof fn read_item_sized_at(bytes: Seq<u8>, at: int, depth: int)
    requires
        0 <= at,
    ensures
        item_at(bytes, at, depth) matches Ok((item, end)) ==> {
            &&& at <= end
            &&& item.texts_sized() ==> item.sized()
        },
    decreases MAX_DEPTH + 1 - depth, 0nat,
{
    if let Ok((item, _)) = item_at(bytes, at, depth) {
        let format = bytes[at] / 4;
        let start = at + 1 + bytes[at] % 4;
        let length_bytes = bytes.subrange(at + 1, start);
        let length = be_value(length_bytes);
        wire::be_value_bound(length_bytes);
        wire::capacity_grows(length_bytes.len(), 3);
        wire::capacities();
        if format == LIST {
            read_items_sized_at(bytes, start, length, depth + 1);
        } else {
            value_keeps_length(format, bytes.subrange(start, start + length));
        }
    }
}

/// The lengths of what is read, one behind the other, fit, where those of its
/// texts do; and as many are read as were due.
proof fn read_items_sized_at(bytes: Seq<u8>, at: int, count: nat, depth: int)
    requires
        0 <= at,
    ensures
        items_at(bytes, at, count, depth) matches Ok((items, end)) ==> {
            &&& at <= end
            &&& items.len() == count
            &&& forall|i: int|
                0 <= i < items.len() ==> (#[trigger] items[i]).texts_sized() ==> items[i].sized()
        },
    decreases MAX_DEPTH + 1 - depth, count,
{
    if count > 0 {
        read_item_sized_at(bytes, at, depth);
        if let Ok((_, next)) = item_at(bytes, at, depth) {
            read_items_sized_at(bytes, next, (count - 1) as nat, depth);
        }
    }
}

/// An item that was read, however it was written, is read again from what it
/// is written as, unless one of its texts was mended past what three length
/// bytes can say.
pub proof fn read_item_read_back(bytes: Seq<u8>)
    ensures
        item_in(bytes) matches Ok(item) ==> item.texts_sized() ==> item_in(item.bytes()) == Ok::<
            ItemView,
            Error,
        >(item),
{
    read_item_nests(bytes);
    read_item_sized_at(bytes, 0, 0);
    if let Ok(item) = item_in(bytes) {
        if item.texts_sized() {
            item_read_back(item);
        }
    }
}

/// A value that was read, unless it is a text that is not UTF-8, is written in
/// as many bytes.
proof fn value_written_as_long(format: u8, data: Seq<u8>)
    requires
        format == ASCII ==> valid_utf8(data),
    ensures
        value_in(format, data) matches Ok(item) ==> {
            &&& !(item is List)
            &&& item.value_bytes().len() == data.len()
        },
{
    value_keeps_length(format, data);
    if format == ASCII {
        decode_utf8_encode_utf8(data);
    }
}

/// A head is no longer than any other that says the same length.
proof fn head_shortest(format: u8, length_bytes: Seq<u8>)
    requires
        format < 64,
        1 <= length_bytes.len() <= 3,
    ensures
        head_bytes(format, be_value(length_bytes)).len() <= 1 + length_bytes.len(),
{
    let length = be_value(length_bytes);
    wire::be_value_bound(length_bytes);
    wire::capacity_grows(length_bytes.len(), 3);
    wire::capacities();
    lemma_small_mod(length, MAX_LENGTH as nat + 1);
    head_read_back(format, length);
    length_bytes_fewest(length);
}

/// What is read somewhere is written in no more bytes than it was read from,
/// where its texts are UTF-8.
proof fn item_shortest_at(bytes: Seq<u8>, at: int, depth: int)
    requires
        0 <= at,
        texts_utf8_at(bytes, at, depth),
    ensures
        item_at(bytes, at, depth) matches Ok((item, end)) ==> item.bytes().len() <= end - at,
    decreases MAX_DEPTH + 1 - depth, 0nat,
{
    if let Ok((item, end)) = item_at(bytes, at, depth) {
        let format = bytes[at] / 4;
        let start = at + 1 + bytes[at] % 4;
        let length_bytes = bytes.subrange(at + 1, start);
        let length = be_value(length_bytes);
        head_shortest(format, length_bytes);
        if format == LIST {
            items_shortest_at(bytes, start, length, depth + 1);
        } else {
            let data = bytes.subrange(start, start + length);
            value_written_as_long(format, data);
            assert(item.format() == format);
        }
    }
}

/// What is read one behind the other is written in no more bytes than it was
/// read from, where its texts are UTF-8.
proof fn items_shortest_at(bytes: Seq<u8>, at: int, count: nat, depth: int)
    requires
        0 <= at <= bytes.len(),
        items_texts_utf8_at(bytes, at, count, depth),
    ensures
        items_at(bytes, at, count, depth) matches Ok((items, end)) ==> {
            &&& items.len() == count
            &&& list_bytes(items).len() <= end - at
        },
    decreases MAX_DEPTH + 1 - depth, count,
{
    if count > 0 {
        item_shortest_at(bytes, at, depth);
        item_ends(bytes, at, depth);
        if let Ok((first, next)) = item_at(bytes, at, depth) {
            items_shortest_at(bytes, next, (count - 1) as nat, depth);
            if let Ok((later, _)) = items_at(bytes, next, (count - 1) as nat, depth) {
                assert((seq![first] + later).skip(1) =~= later);
            }
        }
    }
}

/// No bytes that hold an item are fewer than those it is written in: this
/// holds of all bytes whose texts are UTF-8, and so of all that are read as an
/// item without U+FFFD.
pub proof fn written_item_shortest(bytes: Seq<u8>)
    requires
        texts_utf8(bytes),
    ensures
        item_in(bytes) matches Ok(item) ==> item.bytes().len() <= bytes.len(),
{
    item_shortest_at(bytes, 0, 0);
}

} // verus!
