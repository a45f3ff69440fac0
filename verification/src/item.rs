//! SECS-II items, SEMI E5: the self-describing values every data message
//! is built from. A format byte — six bits of format code, two bits saying
//! how many length bytes follow — then the length in bytes, then the value;
//! a list's length counts elements rather than bytes and its elements
//! follow, each an item.
//!
//! Numbers are big-endian; an item of a numeric format holds as many values
//! as its length divides into. A message body is one item, usually a list.

use crate::error::Error;
use crate::number::{number_bytes, split, split_values, write_numbers};
use crate::wire;
use crate::wire::{be_bytes, be_value};
use vstd::prelude::*;
use vstd::slice::{slice_subrange, slice_to_vec};
use vstd::utf8::{decode_utf8, encode_utf8, valid_utf8};

verus! {

/// One item, and by recursion the whole body. A floating-point value stands
/// as its bits: `F4` holds IEEE 754 single-precision words, `F8`
/// double-precision ones.
#[derive(Debug, PartialEq)]
pub enum Item {
    List(Vec<Item>),
    Ascii(String),
    Binary(Vec<u8>),
    Boolean(Vec<bool>),
    I1(Vec<i8>),
    I2(Vec<i16>),
    I4(Vec<i32>),
    I8(Vec<i64>),
    U1(Vec<u8>),
    U2(Vec<u16>),
    U4(Vec<u32>),
    U8(Vec<u64>),
    F4(Vec<u32>),
    F8(Vec<u64>),
}

pub const LIST: u8 = 0o00;

pub const BINARY: u8 = 0o10;

pub const BOOLEAN: u8 = 0o11;

pub const ASCII: u8 = 0o20;

pub const I8: u8 = 0o30;

pub const I1: u8 = 0o31;

pub const I2: u8 = 0o32;

pub const I4: u8 = 0o34;

pub const F8: u8 = 0o40;

pub const F4: u8 = 0o44;

pub const U8: u8 = 0o50;

pub const U1: u8 = 0o51;

pub const U2: u8 = 0o52;

pub const U4: u8 = 0o54;

/// How deep a list may nest before it is refused as hostile.
pub const MAX_DEPTH: usize = 64;

/// The greatest length that three length bytes can say.
pub const MAX_LENGTH: u32 = 0x00FF_FFFF;

/// What an item says, its contents as sequences.
pub enum ItemView {
    List(Seq<ItemView>),
    Ascii(Seq<char>),
    Binary(Seq<u8>),
    Boolean(Seq<bool>),
    I1(Seq<i8>),
    I2(Seq<i16>),
    I4(Seq<i32>),
    I8(Seq<i64>),
    U1(Seq<u8>),
    U2(Seq<u16>),
    U4(Seq<u32>),
    U8(Seq<u64>),
    F4(Seq<u32>),
    F8(Seq<u64>),
}

impl Item {
    /// What the item says.
    pub open spec fn contents(self) -> ItemView
        decreases self,
    {
        match self {
            Item::List(items) => ItemView::List(
                Seq::new(
                    items@.len(),
                    |i: int|
                        if 0 <= i < items@.len() {
                            items@[i].contents()
                        } else {
                            arbitrary()
                        },
                ),
            ),
            Item::Ascii(text) => ItemView::Ascii(text@),
            Item::Binary(bytes) => ItemView::Binary(bytes@),
            Item::Boolean(flags) => ItemView::Boolean(flags@),
            Item::I1(values) => ItemView::I1(values@),
            Item::I2(values) => ItemView::I2(values@),
            Item::I4(values) => ItemView::I4(values@),
            Item::I8(values) => ItemView::I8(values@),
            Item::U1(bytes) => ItemView::U1(bytes@),
            Item::U2(values) => ItemView::U2(values@),
            Item::U4(values) => ItemView::U4(values@),
            Item::U8(values) => ItemView::U8(values@),
            Item::F4(words) => ItemView::F4(words@),
            Item::F8(words) => ItemView::F8(words@),
        }
    }
}

impl View for Item {
    type V = ItemView;

    open spec fn view(&self) -> ItemView {
        self.contents()
    }
}

impl Clone for Item {
    fn clone(&self) -> (copy: Item)
        ensures
            copy@ == self@,
        decreases self,
    {
        match self {
            Item::List(items) => {
                let mut copies: Vec<Item> = Vec::new();
                let mut at: usize = 0;
                while at < items.len()
                    invariant
                        at <= items@.len(),
                        at == copies@.len(),
                        *self == Item::List(*items),
                        forall|i: int| 0 <= i < at ==> (#[trigger] copies@[i])@ == items@[i]@,
                    decreases items@.len() - at,
                {
                    assert(decreases_to!(*self => self->List_0));
                    assert(decreases_to!(self->List_0 => self->List_0@));
                    copies.push(items[at].clone());
                    at = at + 1;
                }
                let copy = Item::List(copies);
                assert(copy@->List_0 =~= self@->List_0);
                copy
            },
            Item::Ascii(text) => Item::Ascii(text.clone()),
            Item::Binary(bytes) => Item::Binary(slice_to_vec(bytes.as_slice())),
            Item::Boolean(flags) => Item::Boolean(slice_to_vec(flags.as_slice())),
            Item::I1(values) => Item::I1(slice_to_vec(values.as_slice())),
            Item::I2(values) => Item::I2(slice_to_vec(values.as_slice())),
            Item::I4(values) => Item::I4(slice_to_vec(values.as_slice())),
            Item::I8(values) => Item::I8(slice_to_vec(values.as_slice())),
            Item::U1(bytes) => Item::U1(slice_to_vec(bytes.as_slice())),
            Item::U2(values) => Item::U2(slice_to_vec(values.as_slice())),
            Item::U4(values) => Item::U4(slice_to_vec(values.as_slice())),
            Item::U8(values) => Item::U8(slice_to_vec(values.as_slice())),
            Item::F4(words) => Item::F4(slice_to_vec(words.as_slice())),
            Item::F8(words) => Item::F8(slice_to_vec(words.as_slice())),
        }
    }
}

/// The length an item announces for `length`: its low-order 24 bits, or all
/// of them set where it does not fit in 32.
pub open spec fn announced(length: nat) -> nat {
    if length <= u32::MAX {
        length % (MAX_LENGTH as nat + 1)
    } else {
        MAX_LENGTH as nat
    }
}

/// How few bytes the announced length `length` can be written in.
pub open spec fn length_width(length: nat) -> nat {
    if length > 0xFFFF {
        3
    } else if length > 0xFF {
        2
    } else {
        1
    }
}

/// The format byte and the length bytes of an item of format `format`.
pub open spec fn head_bytes(format: u8, length: nat) -> Seq<u8> {
    let width = length_width(announced(length));
    seq![(4 * format + width) as u8] + be_bytes(announced(length), width)
}

/// `flags` as bytes, 1 for true and 0 for false.
pub open spec fn flag_bytes(flags: Seq<bool>) -> Seq<u8> {
    flags.map_values(
        |flag: bool|
            if flag {
                1u8
            } else {
                0u8
            },
    )
}

impl ItemView {
    /// The format code E5 gives this kind of item.
    pub open spec fn format(self) -> u8 {
        match self {
            ItemView::List(_) => LIST,
            ItemView::Ascii(_) => ASCII,
            ItemView::Binary(_) => BINARY,
            ItemView::Boolean(_) => BOOLEAN,
            ItemView::I1(_) => I1,
            ItemView::I2(_) => I2,
            ItemView::I4(_) => I4,
            ItemView::I8(_) => I8,
            ItemView::U1(_) => U1,
            ItemView::U2(_) => U2,
            ItemView::U4(_) => U4,
            ItemView::U8(_) => U8,
            ItemView::F4(_) => F4,
            ItemView::F8(_) => F8,
        }
    }

    /// The bytes of the value behind the length, of an item that is no list.
    pub open spec fn value_bytes(self) -> Seq<u8> {
        match self {
            ItemView::List(_) => Seq::empty(),
            ItemView::Ascii(text) => encode_utf8(text),
            ItemView::Binary(bytes) => bytes,
            ItemView::Boolean(flags) => flag_bytes(flags),
            ItemView::I1(values) => number_bytes(values),
            ItemView::I2(values) => number_bytes(values),
            ItemView::I4(values) => number_bytes(values),
            ItemView::I8(values) => number_bytes(values),
            ItemView::U1(bytes) => bytes,
            ItemView::U2(values) => number_bytes(values),
            ItemView::U4(values) => number_bytes(values),
            ItemView::U8(values) => number_bytes(values),
            ItemView::F4(words) => number_bytes(words),
            ItemView::F8(words) => number_bytes(words),
        }
    }

    /// Whether no text in the item holds U+FFFD, which stands for what was not
    /// UTF-8.
    pub open spec fn unmended(self) -> bool
        decreases self,
    {
        match self {
            ItemView::List(items) => forall|i: int|
                0 <= i < items.len() ==> (#[trigger] items[i]).unmended(),
            ItemView::Ascii(text) => !text.contains('\u{FFFD}'),
            _ => true,
        }
    }

    /// The item on the wire.
    pub open spec fn bytes(self) -> Seq<u8>
        decreases self,
    {
        match self {
            ItemView::List(items) => head_bytes(LIST, items.len()) + list_bytes(items),
            _ => head_bytes(self.format(), self.value_bytes().len()) + self.value_bytes(),
        }
    }
}

/// `items` on the wire, one behind the other.
pub open spec fn list_bytes(items: Seq<ItemView>) -> Seq<u8>
    decreases items,
{
    if items.len() == 0 {
        Seq::empty()
    } else {
        items[0].bytes() + list_bytes(items.skip(1))
    }
}

/// The text that bytes which are not UTF-8 are read as: U+FFFD for each part
/// that is not, as `String::from_utf8_lossy` has it.
pub uninterp spec fn mended_text(bytes: Seq<u8>) -> Seq<char>;

/// The text that bytes are read as.
pub open spec fn text_in(bytes: Seq<u8>) -> Seq<char> {
    if valid_utf8(bytes) {
        decode_utf8(bytes)
    } else {
        mended_text(bytes)
    }
}

/// `bytes` as text, by `String::from_utf8_lossy`: their characters where they
/// are UTF-8; elsewhere the name `mended_text` stands for what it returns,
/// which is a function of the bytes alone and holds U+FFFD, put in place of
/// what is not UTF-8.
#[verifier::external_body]
fn read_text(bytes: &[u8]) -> (text: String)
    ensures
        valid_utf8(bytes@) ==> text@ == decode_utf8(bytes@),
        !valid_utf8(bytes@) ==> text@ == mended_text(bytes@) && text@.contains('\u{FFFD}'),
{
    String::from_utf8_lossy(bytes).into_owned()
}

/// `item` as bytes on the wire.
#[must_use]
pub fn encode(item: &Item) -> (bytes: Vec<u8>)
    ensures
        bytes@ == item@.bytes(),
{
    let mut bytes: Vec<u8> = Vec::new();
    encode_into(item, &mut bytes);
    assert(bytes@ =~= item@.bytes());
    bytes
}

/// Append `item` to `out`: behind what `out` held come the bytes that
/// [`encode`] gives.
pub fn encode_into(item: &Item, out: &mut Vec<u8>)
    ensures
        final(out)@ == old(out)@ + item@.bytes(),
    decreases item,
{
    match item {
        Item::List(items) => {
            let ghost views = item@->List_0;
            let ghost whole = old(out)@ + item@.bytes();
            head(LIST, items.len(), out);
            let mut at: usize = 0;
            assert(views.skip(0) =~= views);
            assert(out@ + list_bytes(views.skip(0)) =~= whole);
            while at < items.len()
                invariant
                    at <= items@.len() == views.len(),
                    *item == Item::List(*items),
                    item@ == ItemView::List(views),
                    out@ + list_bytes(views.skip(at as int)) == whole,
                decreases items@.len() - at,
            {
                let ghost before = out@;
                encode_into(&items[at], out);
                proof {
                    let rest = views.skip(at as int);
                    assert(rest[0] == items@[at as int]@);
                    assert(rest.skip(1) =~= views.skip(at + 1));
                    assert(out@ + list_bytes(views.skip(at + 1)) =~= before + list_bytes(rest));
                }
                at = at + 1;
            }
            assert(out@ =~= whole);
        },
        Item::Ascii(text) => value(ASCII, text.as_str().as_bytes(), out),
        Item::Binary(bytes) => value(BINARY, bytes.as_slice(), out),
        Item::U1(bytes) => value(U1, bytes.as_slice(), out),
        Item::Boolean(flags) => {
            let mut bytes: Vec<u8> = Vec::new();
            let mut at: usize = 0;
            while at < flags.len()
                invariant
                    at <= flags@.len(),
                    bytes@ == flag_bytes(flags@.take(at as int)),
                decreases flags@.len() - at,
            {
                bytes.push(
                    if flags[at] {
                        1
                    } else {
                        0
                    },
                );
                at = at + 1;
                assert(bytes@ =~= flag_bytes(flags@.take(at as int)));
            }
            assert(flags@.take(at as int) =~= flags@);
            value(BOOLEAN, bytes.as_slice(), out);
        },
        Item::I1(values) => value(I1, write_numbers(values).as_slice(), out),
        Item::I2(values) => value(I2, write_numbers(values).as_slice(), out),
        Item::I4(values) => value(I4, write_numbers(values).as_slice(), out),
        Item::I8(values) => value(I8, write_numbers(values).as_slice(), out),
        Item::U2(values) => value(U2, write_numbers(values).as_slice(), out),
        Item::U4(values) => value(U4, write_numbers(values).as_slice(), out),
        Item::U8(values) => value(U8, write_numbers(values).as_slice(), out),
        Item::F4(words) => value(F4, write_numbers(words).as_slice(), out),
        Item::F8(words) => value(F8, write_numbers(words).as_slice(), out),
    }
}

/// Append the head of an item of format `format`, and its value.
fn value(format: u8, bytes: &[u8], out: &mut Vec<u8>)
    requires
        format < 64,
    ensures
        final(out)@ == old(out)@ + (head_bytes(format, bytes@.len()) + bytes@),
{
    head(format, bytes.len(), out);
    out.extend_from_slice(bytes);
    assert(out@ =~= old(out)@ + (head_bytes(format, bytes@.len()) + bytes@));
}

/// The format byte and as few length bytes as `length` needs.
fn head(format: u8, length: usize, out: &mut Vec<u8>)
    requires
        format < 64,
    ensures
        final(out)@ == old(out)@ + head_bytes(format, length as nat),
{
    let whole: u32 = if length <= u32::MAX as usize {
        length as u32
    } else {
        MAX_LENGTH
    };
    let length = whole & MAX_LENGTH;
    assert(whole & 0x00FF_FFFF == whole % 0x0100_0000) by (bit_vector);
    let count: u8 = if length > 0xFFFF {
        3
    } else if length > 0xFF {
        2
    } else {
        1
    };
    assert((format << 2) | count == 4 * format + count) by (bit_vector)
        requires
            format < 64,
            count < 4,
    ;
    out.push((format << 2) | count);
    wire::put(out, length as u64, count as usize);
    assert(out@ =~= old(out)@ + head_bytes(format, whole as nat));
}

/// What the value `data` of an item of format `format`, no list, says.
pub open spec fn value_in(format: u8, data: Seq<u8>) -> Result<ItemView, Error> {
    if format == ASCII {
        Ok(ItemView::Ascii(text_in(data)))
    } else if format == BINARY {
        Ok(ItemView::Binary(data))
    } else if format == BOOLEAN {
        Ok(ItemView::Boolean(data.map_values(|byte: u8| byte != 0)))
    } else if format == U1 {
        Ok(ItemView::U1(data))
    } else if format == I1 {
        match split_values::<i8>(data) {
            Ok(values) => Ok(ItemView::I1(values)),
            Err(error) => Err(error),
        }
    } else if format == I2 {
        match split_values::<i16>(data) {
            Ok(values) => Ok(ItemView::I2(values)),
            Err(error) => Err(error),
        }
    } else if format == I4 {
        match split_values::<i32>(data) {
            Ok(values) => Ok(ItemView::I4(values)),
            Err(error) => Err(error),
        }
    } else if format == I8 {
        match split_values::<i64>(data) {
            Ok(values) => Ok(ItemView::I8(values)),
            Err(error) => Err(error),
        }
    } else if format == U2 {
        match split_values::<u16>(data) {
            Ok(values) => Ok(ItemView::U2(values)),
            Err(error) => Err(error),
        }
    } else if format == U4 {
        match split_values::<u32>(data) {
            Ok(values) => Ok(ItemView::U4(values)),
            Err(error) => Err(error),
        }
    } else if format == U8 {
        match split_values::<u64>(data) {
            Ok(values) => Ok(ItemView::U8(values)),
            Err(error) => Err(error),
        }
    } else if format == F4 {
        match split_values::<u32>(data) {
            Ok(words) => Ok(ItemView::F4(words)),
            Err(error) => Err(error),
        }
    } else if format == F8 {
        match split_values::<u64>(data) {
            Ok(words) => Ok(ItemView::F8(words)),
            Err(error) => Err(error),
        }
    } else {
        Err(Error::UnknownFormat(format))
    }
}

/// The item that stands in `bytes` at `at`, under `depth` lists, and where it
/// ends; or the reason why none does.
pub open spec fn item_at(bytes: Seq<u8>, at: int, depth: int) -> Result<(ItemView, int), Error>
    decreases MAX_DEPTH + 1 - depth, 0nat,
{
    if depth > MAX_DEPTH {
        Err(Error::NestedTooDeep)
    } else if at >= bytes.len() {
        Err(Error::CutAtFormatByte)
    } else {
        let format = bytes[at] / 4;
        let start = at + 1 + bytes[at] % 4;
        if bytes[at] % 4 == 0 {
            Err(Error::NoLengthBytes)
        } else if start > bytes.len() {
            Err(Error::CutInItemLength)
        } else {
            let length = be_value(bytes.subrange(at + 1, start));
            if format == LIST {
                match items_at(bytes, start, length, depth + 1) {
                    Ok((items, end)) => Ok((ItemView::List(items), end)),
                    Err(error) => Err(error),
                }
            } else if start + length > bytes.len() {
                Err(Error::LongerThanWhatFollows)
            } else {
                match value_in(format, bytes.subrange(start, start + length)) {
                    Ok(item) => Ok((item, start + length)),
                    Err(error) => Err(error),
                }
            }
        }
    }
}

/// The `count` items that stand in `bytes` from `at` on, under `depth` lists,
/// and where they end; or the reason why the first that is none is none.
pub open spec fn items_at(bytes: Seq<u8>, at: int, count: nat, depth: int) -> Result<
    (Seq<ItemView>, int),
    Error,
>
    decreases MAX_DEPTH + 1 - depth, count,
{
    if count == 0 {
        Ok((Seq::empty(), at))
    } else {
        match item_at(bytes, at, depth) {
            Err(error) => Err(error),
            Ok((item, next)) => match items_at(bytes, next, (count - 1) as nat, depth) {
                Err(error) => Err(error),
                Ok((items, end)) => Ok((seq![item] + items, end)),
            },
        }
    }
}

/// Where reading the item in `bytes` at `at`, under `depth` lists, leaves off:
/// behind the item where it is read; where it is refused, behind what was told
/// of it before the refusal.
pub open spec fn reached(bytes: Seq<u8>, at: int, depth: int) -> int
    decreases MAX_DEPTH + 1 - depth, 0nat,
{
    if depth > MAX_DEPTH || at >= bytes.len() {
        at
    } else {
        let start = at + 1 + bytes[at] % 4;
        if bytes[at] % 4 == 0 || start > bytes.len() {
            at
        } else {
            let length = be_value(bytes.subrange(at + 1, start));
            if bytes[at] / 4 == LIST {
                items_reached(bytes, start, length, depth + 1)
            } else if start + length > bytes.len() {
                start
            } else {
                start + length
            }
        }
    }
}

/// Where reading the `count` items in `bytes` from `at` on, under `depth`
/// lists, leaves off: behind them, or where reading the first that is refused
/// does.
pub open spec fn items_reached(bytes: Seq<u8>, at: int, count: nat, depth: int) -> int
    decreases MAX_DEPTH + 1 - depth, count,
{
    if count == 0 {
        at
    } else {
        match item_at(bytes, at, depth) {
            Err(_) => reached(bytes, at, depth),
            Ok((_, next)) => items_reached(bytes, next, (count - 1) as nat, depth),
        }
    }
}

/// Whether every text in the item in `bytes` at `at`, under `depth` lists, is
/// UTF-8.
pub open spec fn texts_utf8_at(bytes: Seq<u8>, at: int, depth: int) -> bool
    decreases MAX_DEPTH + 1 - depth, 0nat,
{
    item_at(bytes, at, depth) is Ok ==> {
        let start = at + 1 + bytes[at] % 4;
        let length = be_value(bytes.subrange(at + 1, start));
        if depth > MAX_DEPTH {
            true
        } else if bytes[at] / 4 == LIST {
            items_texts_utf8_at(bytes, start, length, depth + 1)
        } else {
            bytes[at] / 4 == ASCII ==> valid_utf8(bytes.subrange(start, start + length))
        }
    }
}

/// Whether every text in the `count` items in `bytes` from `at` on, under
/// `depth` lists, is UTF-8.
pub open spec fn items_texts_utf8_at(bytes: Seq<u8>, at: int, count: nat, depth: int) -> bool
    decreases MAX_DEPTH + 1 - depth, count,
{
    count > 0 ==> {
        &&& texts_utf8_at(bytes, at, depth)
        &&& item_at(bytes, at, depth) matches Ok((_, next)) ==> items_texts_utf8_at(
            bytes,
            next,
            (count - 1) as nat,
            depth,
        )
    }
}

/// Whether every text in the item that `bytes` hold is UTF-8.
pub open spec fn texts_utf8(bytes: Seq<u8>) -> bool {
    texts_utf8_at(bytes, 0, 0)
}

/// What items read behind `first` come to.
spec fn prepended(
    first: Seq<ItemView>,
    later: Result<(Seq<ItemView>, int), Error>,
) -> Result<(Seq<ItemView>, int), Error> {
    match later {
        Ok((items, end)) => Ok((first + items, end)),
        Err(error) => Err(error),
    }
}

/// What items read as the elements of a list come to.
spec fn listed(elements: Result<(Seq<ItemView>, int), Error>) -> Result<(ItemView, int), Error> {
    match elements {
        Ok((items, end)) => Ok((ItemView::List(items), end)),
        Err(error) => Err(error),
    }
}

proof fn prepend_nothing(later: Result<(Seq<ItemView>, int), Error>)
    ensures
        prepended(Seq::empty(), later) == later,
{
    if let Ok((items, end)) = later {
        assert(Seq::<ItemView>::empty() + items =~= items);
    }
}

proof fn prepend_twice(
    first: Seq<ItemView>,
    item: ItemView,
    later: Result<(Seq<ItemView>, int), Error>,
)
    ensures
        prepended(first, prepended(seq![item], later)) == prepended(first.push(item), later),
{
    if let Ok((items, end)) = later {
        assert(first + (seq![item] + items) =~= first.push(item) + items);
    }
}

/// The one item that `bytes` hold, all of them; or the reason why they do
/// not.
pub open spec fn item_in(bytes: Seq<u8>) -> Result<ItemView, Error> {
    match item_at(bytes, 0, 0) {
        Err(error) => Err(error),
        Ok((item, end)) => if end == bytes.len() {
            Ok(item)
        } else {
            Err(Error::BytesAfterItem)
        },
    }
}

/// The one item `bytes` holds, all of them. Refused are a format code E5 does
/// not define, a length past the end, a numeric item whose length is not a
/// whole number of values, lists nested too deep, and bytes left over. A text
/// that is not UTF-8 is mended, and then holds U+FFFD.
pub fn decode(bytes: &[u8]) -> (result: Result<Item, Error>)
    ensures
        match result {
            Ok(item) => {
                &&& item_in(bytes@) == Ok::<ItemView, Error>(item@)
                &&& item@.unmended() ==> texts_utf8(bytes@)
            },
            Err(error) => item_in(bytes@) == Err::<ItemView, Error>(error),
        },
{
    let mut at: usize = 0;
    let item = match decode_at(bytes, &mut at, 0) {
        Ok(item) => item,
        Err(error) => {
            return Err(error);
        },
    };
    if at != bytes.len() {
        return Err(Error::BytesAfterItem);
    }
    Ok(item)
}

/// The item in `bytes` at `at`, under `depth` lists; `at` moves behind it, and
/// as far as the item was understood where it is refused.
pub fn decode_at(bytes: &[u8], at: &mut usize, depth: usize) -> (result: Result<Item, Error>)
    ensures
        match result {
            Ok(item) => {
                &&& item_at(bytes@, *old(at) as int, depth as int) == Ok::<(ItemView, int), Error>(
                    (item@, *final(at) as int),
                )
                &&& item@.unmended() ==> texts_utf8_at(bytes@, *old(at) as int, depth as int)
            },
            Err(error) => item_at(bytes@, *old(at) as int, depth as int) == Err::<
                (ItemView, int),
                Error,
            >(error),
        },
        *final(at) == reached(bytes@, *old(at) as int, depth as int),
        *old(at) <= bytes@.len() ==> *final(at) <= bytes@.len(),
        depth > MAX_DEPTH || *old(at) >= bytes@.len() ==> result is Err && *final(at) == *old(at),
    decreases MAX_DEPTH + 1 - depth,
{
    if depth > MAX_DEPTH {
        return Err(Error::NestedTooDeep);
    }
    let from = *at;
    if from >= bytes.len() {
        return Err(Error::CutAtFormatByte);
    }
    let format_byte = bytes[from];
    assert(format_byte & 0b11 == format_byte % 4) by (bit_vector);
    assert(format_byte >> 2 == format_byte / 4) by (bit_vector);
    let count = (format_byte & 0b11) as usize;
    if count == 0 {
        return Err(Error::NoLengthBytes);
    }
    if bytes.len() - from - 1 < count {
        return Err(Error::CutInItemLength);
    }
    let length = wire::get(bytes, from + 1, count) as usize;
    proof {
        wire::capacities();
        wire::capacity_grows(count as nat, 3);
    }
    let start = from + 1 + count;
    *at = start;
    let format = format_byte >> 2;
    if format == LIST {
        let mut items: Vec<Item> = Vec::with_capacity(
            if length < 1024 {
                length
            } else {
                1024
            },
        );
        let ghost mut views: Seq<ItemView> = Seq::empty();
        let ghost whole = items_at(bytes@, start as int, length as nat, depth + 1);
        let mut taken: usize = 0;
        proof {
            prepend_nothing(items_at(bytes@, start as int, length as nat, depth + 1));
        }
        while taken < length
            invariant
                taken <= length,
                taken == views.len() == items@.len(),
                forall|i: int| 0 <= i < taken ==> (#[trigger] items@[i])@ == views[i],
                depth <= MAX_DEPTH,
                from < bytes@.len(),
                *at <= bytes@.len(),
                reached(bytes@, from as int, depth as int) == items_reached(
                    bytes@,
                    *at as int,
                    (length - taken) as nat,
                    depth + 1,
                ),
                (forall|i: int| 0 <= i < taken ==> (#[trigger] views[i]).unmended())
                    && items_texts_utf8_at(bytes@, *at as int, (length - taken) as nat, depth + 1)
                    ==> texts_utf8_at(bytes@, from as int, depth as int),
                whole == prepended(
                    views,
                    items_at(bytes@, *at as int, (length - taken) as nat, depth + 1),
                ),
                item_at(bytes@, from as int, depth as int) == listed(whole),
                from == *old(at),
            decreases length - taken,
        {
            let ghost here = *at as int;
            let item = match decode_at(bytes, at, depth + 1) {
                Ok(item) => item,
                Err(error) => {
                    return Err(error);
                },
            };
            proof {
                let later = items_at(bytes@, *at as int, (length - taken - 1) as nat, depth + 1);
                assert(items_at(bytes@, here, (length - taken) as nat, depth + 1) == prepended(
                    seq![item@],
                    later,
                ));
                prepend_twice(views, item@, later);
                let before = views;
                views = views.push(item@);
                assert(forall|i: int| 0 <= i < taken ==> #[trigger] before[i] == views[i]);
                assert(views[taken as int] == item@);
            }
            items.push(item);
            taken = taken + 1;
        }
        let list = Item::List(items);
        proof {
            assert(list@->List_0 =~= views);
            assert(views + Seq::empty() =~= views);
        }
        return Ok(list);
    }
    if bytes.len() - start < length {
        return Err(Error::LongerThanWhatFollows);
    }
    *at = start + length;
    decode_value(format, slice_subrange(bytes, start, start + length))
}

/// The item of format `format`, no list, whose value is `data`.
fn decode_value(format: u8, data: &[u8]) -> (result: Result<Item, Error>)
    requires
        format != LIST,
    ensures
        match result {
            Ok(item) => {
                &&& value_in(format, data@) == Ok::<ItemView, Error>(item@)
                &&& format == ASCII && item@.unmended() ==> valid_utf8(data@)
            },
            Err(error) => value_in(format, data@) == Err::<ItemView, Error>(error),
        },
{
    Ok(
        match format {
            ASCII => Item::Ascii(read_text(data)),
            BINARY => Item::Binary(slice_to_vec(data)),
            BOOLEAN => {
                let mut flags: Vec<bool> = Vec::new();
                let mut at: usize = 0;
                while at < data.len()
                    invariant
                        at <= data@.len(),
                        flags@ == data@.take(at as int).map_values(|byte: u8| byte != 0),
                    decreases data@.len() - at,
                {
                    flags.push(data[at] != 0);
                    at = at + 1;
                    assert(flags@ =~= data@.take(at as int).map_values(|byte: u8| byte != 0));
                }
                assert(data@.take(at as int) =~= data@);
                Item::Boolean(flags)
            },
            U1 => Item::U1(slice_to_vec(data)),
            I1 => Item::I1(split(data)?),
            I2 => Item::I2(split(data)?),
            I4 => Item::I4(split(data)?),
            I8 => Item::I8(split(data)?),
            U2 => Item::U2(split(data)?),
            U4 => Item::U4(split(data)?),
            U8 => Item::U8(split(data)?),
            F4 => Item::F4(split(data)?),
            F8 => Item::F8(split(data)?),
            other => {
                return Err(Error::UnknownFormat(other));
            },
        },
    )
}

} // verus!
