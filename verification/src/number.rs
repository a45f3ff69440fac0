//! The integers that numeric items hold: each a word of a fixed width,
//! signed ones in two's complement.

use crate::error::Error;
use crate::wire;
use crate::wire::{be_bytes, be_value, capacity};
use vstd::arithmetic::div_mod::{
    lemma_div_by_multiple, lemma_hoist_over_denominator, lemma_mod_multiples_vanish, lemma_small_mod,
};
use vstd::prelude::*;

verus! {

/// An integer that a numeric item can hold.
pub trait Number: Sized + Copy {
    /// How many bytes a value takes.
    spec fn width() -> nat;

    /// The value as an unsigned word.
    spec fn word(self) -> nat;

    /// The value whose word is `word`.
    spec fn of_word(word: nat) -> Self;

    /// A value and its word stand for each other.
    proof fn word_of_value(self)
        ensures
            self.word() < capacity(Self::width()),
            Self::of_word(self.word()) == self,
    ;

    /// A word and its value stand for each other.
    proof fn value_of_word(word: nat)
        requires
            word < capacity(Self::width()),
        ensures
            Self::of_word(word).word() == word,
    ;

    /// How many bytes a value takes.
    fn size() -> (size: usize)
        ensures
            size == Self::width(),
            1 <= size <= 8,
    ;

    /// The value as an unsigned word.
    fn to_word(self) -> (word: u64)
        ensures
            word == self.word(),
    ;

    /// The value whose word is `word`.
    fn from_word(word: u64) -> (value: Self)
        requires
            word < capacity(Self::width()),
        ensures
            value == Self::of_word(word as nat),
    ;
}

/// The word of a signed value in a system of `modulus` words.
pub open spec fn signed_word(value: int, modulus: int) -> nat {
    (if value < 0 {
        value + modulus
    } else {
        value
    }) as nat
}

/// The signed value of a word in a system of `modulus` words.
pub open spec fn signed_value(word: nat, modulus: int) -> int {
    if word < modulus / 2 {
        word as int
    } else {
        word - modulus
    }
}

impl Number for i8 {
    open spec fn width() -> nat {
        1
    }

    open spec fn word(self) -> nat {
        signed_word(self as int, 0x100)
    }

    open spec fn of_word(word: nat) -> i8 {
        signed_value(word, 0x100) as i8
    }

    proof fn word_of_value(self) {
        wire::capacities();
    }

    proof fn value_of_word(word: nat) {
        wire::capacities();
    }

    fn size() -> usize {
        1
    }

    fn to_word(self) -> u64 {
        if self < 0 {
            (self as i128 + 0x100) as u64
        } else {
            self as u64
        }
    }

    fn from_word(word: u64) -> i8 {
        proof {
            wire::capacities();
        }
        if word < 0x80 {
            word as i8
        } else {
            (word as i128 - 0x100) as i8
        }
    }
}

impl Number for i16 {
    open spec fn width() -> nat {
        2
    }

    open spec fn word(self) -> nat {
        signed_word(self as int, 0x1_0000)
    }

    open spec fn of_word(word: nat) -> i16 {
        signed_value(word, 0x1_0000) as i16
    }

    proof fn word_of_value(self) {
        wire::capacities();
    }

    proof fn value_of_word(word: nat) {
        wire::capacities();
    }

    fn size() -> usize {
        2
    }

    fn to_word(self) -> u64 {
        if self < 0 {
            (self as i128 + 0x1_0000) as u64
        } else {
            self as u64
        }
    }

    fn from_word(word: u64) -> i16 {
        proof {
            wire::capacities();
        }
        if word < 0x8000 {
            word as i16
        } else {
            (word as i128 - 0x1_0000) as i16
        }
    }
}

impl Number for i32 {
    open spec fn width() -> nat {
        4
    }

    open spec fn word(self) -> nat {
        signed_word(self as int, 0x1_0000_0000)
    }

    open spec fn of_word(word: nat) -> i32 {
        signed_value(word, 0x1_0000_0000) as i32
    }

    proof fn word_of_value(self) {
        wire::capacities();
    }

    proof fn value_of_word(word: nat) {
        wire::capacities();
    }

    fn size() -> usize {
        4
    }

    fn to_word(self) -> u64 {
        if self < 0 {
            (self as i128 + 0x1_0000_0000) as u64
        } else {
            self as u64
        }
    }

    fn from_word(word: u64) -> i32 {
        proof {
            wire::capacities();
        }
        if word < 0x8000_0000 {
            word as i32
        } else {
            (word as i128 - 0x1_0000_0000) as i32
        }
    }
}

impl Number for i64 {
    open spec fn width() -> nat {
        8
    }

    open spec fn word(self) -> nat {
        signed_word(self as int, 0x1_0000_0000_0000_0000)
    }

    open spec fn of_word(word: nat) -> i64 {
        signed_value(word, 0x1_0000_0000_0000_0000) as i64
    }

    proof fn word_of_value(self) {
        wire::capacities();
    }

    proof fn value_of_word(word: nat) {
        wire::capacities();
    }

    fn size() -> usize {
        8
    }

    fn to_word(self) -> u64 {
        if self < 0 {
            (self as i128 + 0x1_0000_0000_0000_0000) as u64
        } else {
            self as u64
        }
    }

    fn from_word(word: u64) -> i64 {
        if word < 0x8000_0000_0000_0000 {
            word as i64
        } else {
            (word as i128 - 0x1_0000_0000_0000_0000) as i64
        }
    }
}

impl Number for u16 {
    open spec fn width() -> nat {
        2
    }

    open spec fn word(self) -> nat {
        self as nat
    }

    open spec fn of_word(word: nat) -> u16 {
        word as u16
    }

    proof fn word_of_value(self) {
        wire::capacities();
    }

    proof fn value_of_word(word: nat) {
        wire::capacities();
    }

    fn size() -> usize {
        2
    }

    fn to_word(self) -> u64 {
        self as u64
    }

    fn from_word(word: u64) -> u16 {
        word as u16
    }
}

impl Number for u32 {
    open spec fn width() -> nat {
        4
    }

    open spec fn word(self) -> nat {
        self as nat
    }

    open spec fn of_word(word: nat) -> u32 {
        word as u32
    }

    proof fn word_of_value(self) {
        wire::capacities();
    }

    proof fn value_of_word(word: nat) {
        wire::capacities();
    }

    fn size() -> usize {
        4
    }

    fn to_word(self) -> u64 {
        self as u64
    }

    fn from_word(word: u64) -> u32 {
        word as u32
    }
}

impl Number for u64 {
    open spec fn width() -> nat {
        8
    }

    open spec fn word(self) -> nat {
        self as nat
    }

    open spec fn of_word(word: nat) -> u64 {
        word as u64
    }

    proof fn word_of_value(self) {
        wire::capacities();
    }

    proof fn value_of_word(word: nat) {
        wire::capacities();
    }

    fn size() -> usize {
        8
    }

    fn to_word(self) -> u64 {
        self
    }

    fn from_word(word: u64) -> u64 {
        word
    }
}

/// `values` one behind the other, each big-endian in its width.
pub open spec fn number_bytes<T: Number>(values: Seq<T>) -> Seq<u8>
    decreases values.len(),
{
    if values.len() == 0 {
        Seq::empty()
    } else {
        number_bytes(values.drop_last()) + be_bytes(values.last().word(), T::width())
    }
}

/// The values that stand one behind the other in `data`.
pub open spec fn numbers_in<T: Number>(data: Seq<u8>) -> Seq<T>
    decreases data.len(),
{
    if data.len() == 0 || data.len() < T::width() || T::width() == 0 {
        Seq::empty()
    } else {
        let last = data.len() - T::width();
        numbers_in::<T>(data.take(last)).push(T::of_word(be_value(data.skip(last))))
    }
}

/// Values of a width take so many bytes each.
pub proof fn number_bytes_len<T: Number>(values: Seq<T>)
    ensures
        number_bytes(values).len() == values.len() * T::width(),
    decreases values.len(),
{
    if values.len() > 0 {
        number_bytes_len(values.drop_last());
        wire::be_bytes_len(values.last().word(), T::width());
        assert((values.len() - 1) * T::width() + T::width() == values.len() * T::width())
            by (nonlinear_arith);
    }
}

/// Values are read back from the bytes they were written in.
pub proof fn numbers_read_back<T: Number>(values: Seq<T>)
    requires
        T::width() > 0,
    ensures
        number_bytes(values).len() % T::width() == 0,
        numbers_in::<T>(number_bytes(values)) == values,
    decreases values.len(),
{
    number_bytes_len(values);
    lemma_mod_multiples_vanish(values.len() as int, 0, T::width() as int);
    assert(values.len() * T::width() == T::width() * values.len()) by (nonlinear_arith);
    if values.len() > 0 {
        let data = number_bytes(values);
        let word = values.last().word();
        let last = data.len() - T::width();
        numbers_read_back(values.drop_last());
        values.last().word_of_value();
        wire::be_bytes_len(word, T::width());
        wire::be_value_of_bytes(word, T::width());
        assert(data.take(last) =~= number_bytes(values.drop_last()));
        assert(data.skip(last) =~= be_bytes(word, T::width()));
        assert(values.drop_last().push(values.last()) =~= values);
    }
}

/// Bytes that divide into values are what those values are written in.
pub proof fn numbers_written_back<T: Number>(data: Seq<u8>)
    requires
        T::width() > 0,
        data.len() % T::width() == 0,
    ensures
        number_bytes(numbers_in::<T>(data)) == data,
    decreases data.len(),
{
    let width = T::width();
    if data.len() > 0 {
        if data.len() < width {
            lemma_small_mod(data.len(), width);
        }
        let last = data.len() - width;
        let word = be_value(data.skip(last));
        let values = numbers_in::<T>(data);
        lemma_mod_multiples_vanish(-1, data.len() as int, width as int);
        numbers_written_back::<T>(data.take(last));
        wire::be_value_bound(data.skip(last));
        wire::be_bytes_of_value(data.skip(last));
        T::value_of_word(word);
        assert(values.drop_last() =~= numbers_in::<T>(data.take(last)));
        assert(number_bytes(values) =~= data);
    }
}

/// `values` one behind the other, each big-endian in its width.
pub fn write_numbers<T: Number>(values: &Vec<T>) -> (bytes: Vec<u8>)
    ensures
        bytes@ == number_bytes(values@),
{
    let mut bytes: Vec<u8> = Vec::new();
    let mut at: usize = 0;
    let size = T::size();
    while at < values.len()
        invariant
            at <= values@.len(),
            size == T::width(),
            bytes@ == number_bytes(values@.take(at as int)),
        decreases values@.len() - at,
    {
        assert(values@.take(at + 1).drop_last() =~= values@.take(at as int));
        wire::put(&mut bytes, values[at].to_word(), size);
        at = at + 1;
    }
    assert(values@.take(at as int) =~= values@);
    bytes
}

/// What `data` holds as values of one width, refused where it does not
/// divide into them.
pub open spec fn split_values<T: Number>(data: Seq<u8>) -> Result<Seq<T>, Error> {
    if data.len() % T::width() == 0 {
        Ok(numbers_in::<T>(data))
    } else {
        Err(Error::UnevenValues { length: data.len() as usize, width: T::width() as usize })
    }
}

/// `data` as whole values.
pub fn split<T: Number>(data: &[u8]) -> (result: Result<Vec<T>, Error>)
    ensures
        match result {
            Ok(values) => split_values::<T>(data@) == Ok::<Seq<T>, Error>(values@),
            Err(error) => split_values::<T>(data@) == Err::<Seq<T>, Error>(error),
        },
{
    let size = T::size();
    let length = data.len();
    if length % size != 0 {
        return Err(Error::UnevenValues { length, width: size });
    }
    let mut values: Vec<T> = Vec::new();
    let mut at: usize = 0;
    assert(data@.take(0) =~= Seq::<u8>::empty());
    while at < length
        invariant
            at <= length == data@.len(),
            size == T::width(),
            1 <= size <= 8,
            (length - at) % (size as int) == 0,
            values@ == numbers_in::<T>(data@.take(at as int)),
        decreases length - at,
    {
        proof {
            if length - at < size {
                lemma_small_mod((length - at) as nat, size as nat);
            }
            lemma_mod_multiples_vanish(-1, length - at, size as int);
            let longer = data@.take(at + size);
            assert(longer.take(at as int) =~= data@.take(at as int));
            assert(longer.skip(at as int) =~= data@.subrange(at as int, at + size));
        }
        values.push(T::from_word(wire::get(data, at, size)));
        at = at + size;
    }
    assert(data@.take(at as int) =~= data@);
    Ok(values)
}

/// Each value stands at its place among the bytes of all.
pub proof fn number_placed<T: Number>(values: Seq<T>, i: int)
    requires
        0 <= i < values.len(),
    ensures
        0 <= i * T::width() <= i * T::width() + T::width() <= number_bytes(values).len(),
        number_bytes(values).subrange(i * T::width(), i * T::width() + T::width()) == be_bytes(
            values[i].word(),
            T::width(),
        ),
    decreases values.len(),
{
    let width = T::width() as int;
    let last = values.len() - 1;
    let data = number_bytes(values);
    let earlier = number_bytes(values.drop_last());
    number_bytes_len(values);
    number_bytes_len(values.drop_last());
    wire::be_bytes_len(values.last().word(), T::width());
    assert(0 <= i * width) by (nonlinear_arith)
        requires
            0 <= i,
            0 <= width,
    ;
    if i < last {
        number_placed(values.drop_last(), i);
        assert(data.subrange(i * width, i * width + width) =~= earlier.subrange(
            i * width,
            i * width + width,
        ));
    } else {
        assert(data.subrange(i * width, i * width + width) =~= be_bytes(
            values.last().word(),
            T::width(),
        ));
    }
}

/// Each value is read from its place among the bytes of all.
pub proof fn number_read_in_place<T: Number>(data: Seq<u8>, i: int)
    requires
        T::width() > 0,
        data.len() % T::width() == 0,
        0 <= i < data.len() / T::width(),
    ensures
        numbers_in::<T>(data).len() == data.len() / T::width(),
        0 <= i * T::width() <= i * T::width() + T::width() <= data.len(),
        numbers_in::<T>(data)[i] == T::of_word(
            be_value(data.subrange(i * T::width(), i * T::width() + T::width())),
        ),
{
    let width = T::width();
    let values = numbers_in::<T>(data);
    numbers_written_back::<T>(data);
    number_bytes_len(values);
    lemma_div_by_multiple(values.len() as int, width as int);
    number_placed(values, i);
    values[i].word_of_value();
    wire::be_value_of_bytes(values[i].word(), width);
}

/// Bytes that do not divide into values of a width are refused with how many
/// they are and that width; those that do are as many values as they divide
/// into.
pub proof fn values_split<T: Number>(data: Seq<u8>)
    requires
        T::width() > 0,
    ensures
        data.len() % T::width() != 0 ==> split_values::<T>(data) == Err::<Seq<T>, Error>(
            Error::UnevenValues { length: data.len() as usize, width: T::width() as usize },
        ),
        data.len() % T::width() == 0 ==> {
            &&& split_values::<T>(data) matches Ok(values)
            &&& values == numbers_in::<T>(data)
            &&& values.len() * T::width() == data.len()
        },
{
    if data.len() % T::width() == 0 {
        numbers_written_back::<T>(data);
        number_bytes_len(numbers_in::<T>(data));
    }
}

/// Whole rounds of a place above leave what stands at the place.
proof fn place_kept(value: int, power: int, rounds: int)
    requires
        power > 0,
    ensures
        (value + power * (0x100 * rounds)) / power % 0x100 == value / power % 0x100,
{
    lemma_hoist_over_denominator(value, 0x100 * rounds, power as nat);
    assert((0x100 * rounds) * power == power * (0x100 * rounds)) by (nonlinear_arith);
    lemma_mod_multiples_vanish(rounds, value / power, 0x100);
}

/// An `i8` is 1 byte; its word is the value modulo 256 to the power of that, two's
/// complement, and a word from the middle up is the value less that modulus.
pub proof fn i8_word(value: i8, word: nat)
    requires
        word < 0x100,
    ensures
        i8::width() == 1,
        value.word() == value as int % 0x100,
        i8::of_word(word) == if word < 0x80 {
            word as int
        } else {
            word - 0x100
        },
{
}

/// The bytes of `i8` values: those of each behind those of the one before, the
/// most significant first, modulo 256 each.
pub proof fn i8_written(values: Seq<i8>, i: int)
    requires
        0 <= i < values.len(),
    ensures
        number_bytes(values).len() == 1 * values.len(),
        number_bytes(values)[i] == values[i] as int % 0x100,
{
    let value = values[i] as int;
    let word = values[i].word();
    let own = be_bytes(word, 1);
    assert(i8::width() == 1);
    number_bytes_len(values);
    number_placed(values, i);
    assert(own == number_bytes(values).subrange(1 * i, 1 * i + 1));
    assert(own == seq![
        (word % 0x100) as u8,
    ]) by {
        wire::bytes_by_place(word);
    }
    assert(word % 0x100 == value % 0x100) by {
        place_kept(value, 0x1, 0x1);
    }
    assert(own[0] == number_bytes(values)[1 * i + 0]);
}

/// What `i8` values bytes are read as, 1 byte each.
pub proof fn i8_read(data: Seq<u8>, i: int)
    requires
        data.len() % 1 == 0,
        0 <= i < data.len() / 1,
    ensures
        numbers_in::<i8>(data).len() == data.len() / 1,
        numbers_in::<i8>(data)[i] == ({
            let word = data[i];
            if word < 0x80 {
                word as int
            } else {
                word - 0x100
            }
        }),
{
    let own = data.subrange(i * 1, i * 1 + 1);
    number_read_in_place::<i8>(data, i);
    wire::value_by_place(own);
    wire::be_value_bound(own);
    wire::capacities();
    assert(own[0] == data[i * 1 + 0]);
}

/// An `i16` is 2 bytes; its word is the value modulo 256 to the power of that, two's
/// complement, and a word from the middle up is the value less that modulus.
pub proof fn i16_word(value: i16, word: nat)
    requires
        word < 0x10000,
    ensures
        i16::width() == 2,
        value.word() == value as int % 0x10000,
        i16::of_word(word) == if word < 0x8000 {
            word as int
        } else {
            word - 0x10000
        },
{
}

/// The bytes of `i16` values: those of each behind those of the one before, the
/// most significant first, modulo 256 each.
pub proof fn i16_written(values: Seq<i16>, i: int)
    requires
        0 <= i < values.len(),
    ensures
        number_bytes(values).len() == 2 * values.len(),
        number_bytes(values)[2 * i] == (values[i] as int / 0x100) % 0x100,
        number_bytes(values)[2 * i + 1] == values[i] as int % 0x100,
{
    let value = values[i] as int;
    let word = values[i].word();
    let own = be_bytes(word, 2);
    assert(i16::width() == 2);
    number_bytes_len(values);
    number_placed(values, i);
    assert(own == number_bytes(values).subrange(2 * i, 2 * i + 2));
    assert(own == seq![
        (word / 0x100 % 0x100) as u8,
        (word % 0x100) as u8,
    ]) by {
        wire::bytes_by_place(word);
    }
    assert((word / 0x100) % 0x100 == (value / 0x100) % 0x100) by {
        place_kept(value, 0x100, 0x1);
    }
    assert(word % 0x100 == value % 0x100) by {
        place_kept(value, 0x1, 0x100);
    }
    assert(own[0] == number_bytes(values)[2 * i + 0]);
    assert(own[1] == number_bytes(values)[2 * i + 1]);
}

/// What `i16` values bytes are read as, 2 bytes each.
pub proof fn i16_read(data: Seq<u8>, i: int)
    requires
        data.len() % 2 == 0,
        0 <= i < data.len() / 2,
    ensures
        numbers_in::<i16>(data).len() == data.len() / 2,
        numbers_in::<i16>(data)[i] == ({
            let word = 0x100 * data[2 * i] + data[2 * i + 1];
            if word < 0x8000 {
                word as int
            } else {
                word - 0x10000
            }
        }),
{
    let own = data.subrange(i * 2, i * 2 + 2);
    number_read_in_place::<i16>(data, i);
    wire::value_by_place(own);
    wire::be_value_bound(own);
    wire::capacities();
    assert(own[0] == data[i * 2 + 0]);
    assert(own[1] == data[i * 2 + 1]);
}

/// An `i32` is 4 bytes; its word is the value modulo 256 to the power of that, two's
/// complement, and a word from the middle up is the value less that modulus.
pub proof fn i32_word(value: i32, word: nat)
    requires
        word < 0x100000000,
    ensures
        i32::width() == 4,
        value.word() == value as int % 0x100000000,
        i32::of_word(word) == if word < 0x80000000 {
            word as int
        } else {
            word - 0x100000000
        },
{
}

/// The bytes of `i32` values: those of each behind those of the one before, the
/// most significant first, modulo 256 each.
pub proof fn i32_written(values: Seq<i32>, i: int)
    requires
        0 <= i < values.len(),
    ensures
        number_bytes(values).len() == 4 * values.len(),
        number_bytes(values)[4 * i] == (values[i] as int / 0x1000000) % 0x100,
        number_bytes(values)[4 * i + 1] == (values[i] as int / 0x10000) % 0x100,
        number_bytes(values)[4 * i + 2] == (values[i] as int / 0x100) % 0x100,
        number_bytes(values)[4 * i + 3] == values[i] as int % 0x100,
{
    let value = values[i] as int;
    let word = values[i].word();
    let own = be_bytes(word, 4);
    assert(i32::width() == 4);
    number_bytes_len(values);
    number_placed(values, i);
    assert(own == number_bytes(values).subrange(4 * i, 4 * i + 4));
    assert(own == seq![
        (word / 0x1000000 % 0x100) as u8,
        (word / 0x10000 % 0x100) as u8,
        (word / 0x100 % 0x100) as u8,
        (word % 0x100) as u8,
    ]) by {
        wire::bytes_by_place(word);
    }
    assert((word / 0x1000000) % 0x100 == (value / 0x1000000) % 0x100) by {
        place_kept(value, 0x1000000, 0x1);
    }
    assert((word / 0x10000) % 0x100 == (value / 0x10000) % 0x100) by {
        place_kept(value, 0x10000, 0x100);
    }
    assert((word / 0x100) % 0x100 == (value / 0x100) % 0x100) by {
        place_kept(value, 0x100, 0x10000);
    }
    assert(word % 0x100 == value % 0x100) by {
        place_kept(value, 0x1, 0x1000000);
    }
    assert(own[0] == number_bytes(values)[4 * i + 0]);
    assert(own[1] == number_bytes(values)[4 * i + 1]);
    assert(own[2] == number_bytes(values)[4 * i + 2]);
    assert(own[3] == number_bytes(values)[4 * i + 3]);
}

/// What `i32` values bytes are read as, 4 bytes each.
pub proof fn i32_read(data: Seq<u8>, i: int)
    requires
        data.len() % 4 == 0,
        0 <= i < data.len() / 4,
    ensures
        numbers_in::<i32>(data).len() == data.len() / 4,
        numbers_in::<i32>(data)[i] == ({
            let word = 0x1000000 * data[4 * i] + 0x10000 * data[4 * i + 1] + 0x100 * data[4 * i + 2] + data[4 * i + 3];
            if word < 0x80000000 {
                word as int
            } else {
                word - 0x100000000
            }
        }),
{
    let own = data.subrange(i * 4, i * 4 + 4);
    number_read_in_place::<i32>(data, i);
    wire::value_by_place(own);
    wire::be_value_bound(own);
    wire::capacities();
    assert(own[0] == data[i * 4 + 0]);
    assert(own[1] == data[i * 4 + 1]);
    assert(own[2] == data[i * 4 + 2]);
    assert(own[3] == data[i * 4 + 3]);
}

/// An `i64` is 8 bytes; its word is the value modulo 256 to the power of that, two's
/// complement, and a word from the middle up is the value less that modulus.
pub proof fn i64_word(value: i64, word: nat)
    requires
        word < 0x10000000000000000,
    ensures
        i64::width() == 8,
        value.word() == value as int % 0x10000000000000000,
        i64::of_word(word) == if word < 0x8000000000000000 {
            word as int
        } else {
            word - 0x10000000000000000
        },
{
}

/// The bytes of `i64` values: those of each behind those of the one before, the
/// most significant first, modulo 256 each.
pub proof fn i64_written(values: Seq<i64>, i: int)
    requires
        0 <= i < values.len(),
    ensures
        number_bytes(values).len() == 8 * values.len(),
        number_bytes(values)[8 * i] == (values[i] as int / 0x100000000000000) % 0x100,
        number_bytes(values)[8 * i + 1] == (values[i] as int / 0x1000000000000) % 0x100,
        number_bytes(values)[8 * i + 2] == (values[i] as int / 0x10000000000) % 0x100,
        number_bytes(values)[8 * i + 3] == (values[i] as int / 0x100000000) % 0x100,
        number_bytes(values)[8 * i + 4] == (values[i] as int / 0x1000000) % 0x100,
        number_bytes(values)[8 * i + 5] == (values[i] as int / 0x10000) % 0x100,
        number_bytes(values)[8 * i + 6] == (values[i] as int / 0x100) % 0x100,
        number_bytes(values)[8 * i + 7] == values[i] as int % 0x100,
{
    let value = values[i] as int;
    let word = values[i].word();
    let own = be_bytes(word, 8);
    assert(i64::width() == 8);
    number_bytes_len(values);
    number_placed(values, i);
    assert(own == number_bytes(values).subrange(8 * i, 8 * i + 8));
    assert(own == seq![
        (word / 0x100000000000000 % 0x100) as u8,
        (word / 0x1000000000000 % 0x100) as u8,
        (word / 0x10000000000 % 0x100) as u8,
        (word / 0x100000000 % 0x100) as u8,
        (word / 0x1000000 % 0x100) as u8,
        (word / 0x10000 % 0x100) as u8,
        (word / 0x100 % 0x100) as u8,
        (word % 0x100) as u8,
    ]) by {
        wire::bytes_by_place(word);
    }
    assert((word / 0x100000000000000) % 0x100 == (value / 0x100000000000000) % 0x100) by {
        place_kept(value, 0x100000000000000, 0x1);
    }
    assert((word / 0x1000000000000) % 0x100 == (value / 0x1000000000000) % 0x100) by {
        place_kept(value, 0x1000000000000, 0x100);
    }
    assert((word / 0x10000000000) % 0x100 == (value / 0x10000000000) % 0x100) by {
        place_kept(value, 0x10000000000, 0x10000);
    }
    assert((word / 0x100000000) % 0x100 == (value / 0x100000000) % 0x100) by {
        place_kept(value, 0x100000000, 0x1000000);
    }
    assert((word / 0x1000000) % 0x100 == (value / 0x1000000) % 0x100) by {
        place_kept(value, 0x1000000, 0x100000000);
    }
    assert((word / 0x10000) % 0x100 == (value / 0x10000) % 0x100) by {
        place_kept(value, 0x10000, 0x10000000000);
    }
    assert((word / 0x100) % 0x100 == (value / 0x100) % 0x100) by {
        place_kept(value, 0x100, 0x1000000000000);
    }
    assert(word % 0x100 == value % 0x100) by {
        place_kept(value, 0x1, 0x100000000000000);
    }
    assert(own[0] == number_bytes(values)[8 * i + 0]);
    assert(own[1] == number_bytes(values)[8 * i + 1]);
    assert(own[2] == number_bytes(values)[8 * i + 2]);
    assert(own[3] == number_bytes(values)[8 * i + 3]);
    assert(own[4] == number_bytes(values)[8 * i + 4]);
    assert(own[5] == number_bytes(values)[8 * i + 5]);
    assert(own[6] == number_bytes(values)[8 * i + 6]);
    assert(own[7] == number_bytes(values)[8 * i + 7]);
}

/// What `i64` values bytes are read as, 8 bytes each.
pub proof fn i64_read(data: Seq<u8>, i: int)
    requires
        data.len() % 8 == 0,
        0 <= i < data.len() / 8,
    ensures
        numbers_in::<i64>(data).len() == data.len() / 8,
        numbers_in::<i64>(data)[i] == ({
            let word = 0x100000000000000 * data[8 * i] + 0x1000000000000 * data[8 * i + 1] + 0x10000000000 * data[8 * i + 2] + 0x100000000 * data[8 * i + 3] + 0x1000000 * data[8 * i + 4] + 0x10000 * data[8 * i + 5] + 0x100 * data[8 * i + 6] + data[8 * i + 7];
            if word < 0x8000000000000000 {
                word as int
            } else {
                word - 0x10000000000000000
            }
        }),
{
    let own = data.subrange(i * 8, i * 8 + 8);
    number_read_in_place::<i64>(data, i);
    wire::value_by_place(own);
    wire::be_value_bound(own);
    wire::capacities();
    assert(own[0] == data[i * 8 + 0]);
    assert(own[1] == data[i * 8 + 1]);
    assert(own[2] == data[i * 8 + 2]);
    assert(own[3] == data[i * 8 + 3]);
    assert(own[4] == data[i * 8 + 4]);
    assert(own[5] == data[i * 8 + 5]);
    assert(own[6] == data[i * 8 + 6]);
    assert(own[7] == data[i * 8 + 7]);
}

/// A `u16` is 2 bytes, and its word is the value.
pub proof fn u16_word(value: u16, word: nat)
    requires
        word < 0x10000,
    ensures
        u16::width() == 2,
        value.word() == value,
        u16::of_word(word) == word,
{
}

/// The bytes of `u16` values: those of each behind those of the one before, the
/// most significant first, modulo 256 each.
pub proof fn u16_written(values: Seq<u16>, i: int)
    requires
        0 <= i < values.len(),
    ensures
        number_bytes(values).len() == 2 * values.len(),
        number_bytes(values)[2 * i] == (values[i] as int / 0x100) % 0x100,
        number_bytes(values)[2 * i + 1] == values[i] as int % 0x100,
{
    let value = values[i] as int;
    let word = values[i].word();
    let own = be_bytes(word, 2);
    assert(u16::width() == 2);
    number_bytes_len(values);
    number_placed(values, i);
    assert(own == number_bytes(values).subrange(2 * i, 2 * i + 2));
    assert(own == seq![
        (word / 0x100 % 0x100) as u8,
        (word % 0x100) as u8,
    ]) by {
        wire::bytes_by_place(word);
    }
    assert(own[0] == number_bytes(values)[2 * i + 0]);
    assert(own[1] == number_bytes(values)[2 * i + 1]);
}

/// What `u16` values bytes are read as, 2 bytes each.
pub proof fn u16_read(data: Seq<u8>, i: int)
    requires
        data.len() % 2 == 0,
        0 <= i < data.len() / 2,
    ensures
        numbers_in::<u16>(data).len() == data.len() / 2,
        numbers_in::<u16>(data)[i] == ({
            let word = 0x100 * data[2 * i] + data[2 * i + 1];
            word
        }),
{
    let own = data.subrange(i * 2, i * 2 + 2);
    number_read_in_place::<u16>(data, i);
    wire::value_by_place(own);
    wire::be_value_bound(own);
    wire::capacities();
    assert(own[0] == data[i * 2 + 0]);
    assert(own[1] == data[i * 2 + 1]);
}

/// A `u32` is 4 bytes, and its word is the value.
pub proof fn u32_word(value: u32, word: nat)
    requires
        word < 0x100000000,
    ensures
        u32::width() == 4,
        value.word() == value,
        u32::of_word(word) == word,
{
}

/// The bytes of `u32` values: those of each behind those of the one before, the
/// most significant first, modulo 256 each.
pub proof fn u32_written(values: Seq<u32>, i: int)
    requires
        0 <= i < values.len(),
    ensures
        number_bytes(values).len() == 4 * values.len(),
        number_bytes(values)[4 * i] == (values[i] as int / 0x1000000) % 0x100,
        number_bytes(values)[4 * i + 1] == (values[i] as int / 0x10000) % 0x100,
        number_bytes(values)[4 * i + 2] == (values[i] as int / 0x100) % 0x100,
        number_bytes(values)[4 * i + 3] == values[i] as int % 0x100,
{
    let value = values[i] as int;
    let word = values[i].word();
    let own = be_bytes(word, 4);
    assert(u32::width() == 4);
    number_bytes_len(values);
    number_placed(values, i);
    assert(own == number_bytes(values).subrange(4 * i, 4 * i + 4));
    assert(own == seq![
        (word / 0x1000000 % 0x100) as u8,
        (word / 0x10000 % 0x100) as u8,
        (word / 0x100 % 0x100) as u8,
        (word % 0x100) as u8,
    ]) by {
        wire::bytes_by_place(word);
    }
    assert(own[0] == number_bytes(values)[4 * i + 0]);
    assert(own[1] == number_bytes(values)[4 * i + 1]);
    assert(own[2] == number_bytes(values)[4 * i + 2]);
    assert(own[3] == number_bytes(values)[4 * i + 3]);
}

/// What `u32` values bytes are read as, 4 bytes each.
pub proof fn u32_read(data: Seq<u8>, i: int)
    requires
        data.len() % 4 == 0,
        0 <= i < data.len() / 4,
    ensures
        numbers_in::<u32>(data).len() == data.len() / 4,
        numbers_in::<u32>(data)[i] == ({
            let word = 0x1000000 * data[4 * i] + 0x10000 * data[4 * i + 1] + 0x100 * data[4 * i + 2] + data[4 * i + 3];
            word
        }),
{
    let own = data.subrange(i * 4, i * 4 + 4);
    number_read_in_place::<u32>(data, i);
    wire::value_by_place(own);
    wire::be_value_bound(own);
    wire::capacities();
    assert(own[0] == data[i * 4 + 0]);
    assert(own[1] == data[i * 4 + 1]);
    assert(own[2] == data[i * 4 + 2]);
    assert(own[3] == data[i * 4 + 3]);
}

/// A `u64` is 8 bytes, and its word is the value.
pub proof fn u64_word(value: u64, word: nat)
    requires
        word < 0x10000000000000000,
    ensures
        u64::width() == 8,
        value.word() == value,
        u64::of_word(word) == word,
{
}

/// The bytes of `u64` values: those of each behind those of the one before, the
/// most significant first, modulo 256 each.
pub proof fn u64_written(values: Seq<u64>, i: int)
    requires
        0 <= i < values.len(),
    ensures
        number_bytes(values).len() == 8 * values.len(),
        number_bytes(values)[8 * i] == (values[i] as int / 0x100000000000000) % 0x100,
        number_bytes(values)[8 * i + 1] == (values[i] as int / 0x1000000000000) % 0x100,
        number_bytes(values)[8 * i + 2] == (values[i] as int / 0x10000000000) % 0x100,
        number_bytes(values)[8 * i + 3] == (values[i] as int / 0x100000000) % 0x100,
        number_bytes(values)[8 * i + 4] == (values[i] as int / 0x1000000) % 0x100,
        number_bytes(values)[8 * i + 5] == (values[i] as int / 0x10000) % 0x100,
        number_bytes(values)[8 * i + 6] == (values[i] as int / 0x100) % 0x100,
        number_bytes(values)[8 * i + 7] == values[i] as int % 0x100,
{
    let value = values[i] as int;
    let word = values[i].word();
    let own = be_bytes(word, 8);
    assert(u64::width() == 8);
    number_bytes_len(values);
    number_placed(values, i);
    assert(own == number_bytes(values).subrange(8 * i, 8 * i + 8));
    assert(own == seq![
        (word / 0x100000000000000 % 0x100) as u8,
        (word / 0x1000000000000 % 0x100) as u8,
        (word / 0x10000000000 % 0x100) as u8,
        (word / 0x100000000 % 0x100) as u8,
        (word / 0x1000000 % 0x100) as u8,
        (word / 0x10000 % 0x100) as u8,
        (word / 0x100 % 0x100) as u8,
        (word % 0x100) as u8,
    ]) by {
        wire::bytes_by_place(word);
    }
    assert(own[0] == number_bytes(values)[8 * i + 0]);
    assert(own[1] == number_bytes(values)[8 * i + 1]);
    assert(own[2] == number_bytes(values)[8 * i + 2]);
    assert(own[3] == number_bytes(values)[8 * i + 3]);
    assert(own[4] == number_bytes(values)[8 * i + 4]);
    assert(own[5] == number_bytes(values)[8 * i + 5]);
    assert(own[6] == number_bytes(values)[8 * i + 6]);
    assert(own[7] == number_bytes(values)[8 * i + 7]);
}

/// What `u64` values bytes are read as, 8 bytes each.
pub proof fn u64_read(data: Seq<u8>, i: int)
    requires
        data.len() % 8 == 0,
        0 <= i < data.len() / 8,
    ensures
        numbers_in::<u64>(data).len() == data.len() / 8,
        numbers_in::<u64>(data)[i] == ({
            let word = 0x100000000000000 * data[8 * i] + 0x1000000000000 * data[8 * i + 1] + 0x10000000000 * data[8 * i + 2] + 0x100000000 * data[8 * i + 3] + 0x1000000 * data[8 * i + 4] + 0x10000 * data[8 * i + 5] + 0x100 * data[8 * i + 6] + data[8 * i + 7];
            word
        }),
{
    let own = data.subrange(i * 8, i * 8 + 8);
    number_read_in_place::<u64>(data, i);
    wire::value_by_place(own);
    wire::be_value_bound(own);
    wire::capacities();
    assert(own[0] == data[i * 8 + 0]);
    assert(own[1] == data[i * 8 + 1]);
    assert(own[2] == data[i * 8 + 2]);
    assert(own[3] == data[i * 8 + 3]);
    assert(own[4] == data[i * 8 + 4]);
    assert(own[5] == data[i * 8 + 5]);
    assert(own[6] == data[i * 8 + 6]);
    assert(own[7] == data[i * 8 + 7]);
}

} // verus!
