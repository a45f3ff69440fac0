//! Unsigned numbers as they stand on the wire: big-endian, in a fixed
//! number of bytes.

use vstd::prelude::*;

verus! {

/// How many values `width` bytes can tell apart.
pub open spec fn capacity(width: nat) -> nat
    decreases width,
{
    if width == 0 {
        1
    } else {
        256 * capacity((width - 1) as nat)
    }
}

/// The low-order `width` bytes of `value`, the most significant first.
pub open spec fn be_bytes(value: nat, width: nat) -> Seq<u8>
    decreases width,
{
    if width == 0 {
        Seq::empty()
    } else {
        be_bytes(value / 256, (width - 1) as nat).push((value % 256) as u8)
    }
}

/// The number that `bytes` spell, the most significant first.
pub open spec fn be_value(bytes: Seq<u8>) -> nat
    decreases bytes.len(),
{
    if bytes.len() == 0 {
        0
    } else {
        256 * be_value(bytes.drop_last()) + bytes.last() as nat
    }
}

/// A number written in `width` bytes takes `width` bytes.
pub proof fn be_bytes_len(value: nat, width: nat)
    ensures
        be_bytes(value, width).len() == width,
    decreases width,
{
    if width > 0 {
        be_bytes_len(value / 256, (width - 1) as nat);
    }
}

/// Bytes spell a number that fits in as many bytes.
pub proof fn be_value_bound(bytes: Seq<u8>)
    ensures
        be_value(bytes) < capacity(bytes.len()),
    decreases bytes.len(),
{
    if bytes.len() > 0 {
        be_value_bound(bytes.drop_last());
    }
}

/// A number that fits is read back from the bytes it was written in.
pub proof fn be_value_of_bytes(value: nat, width: nat)
    requires
        value < capacity(width),
    ensures
        be_value(be_bytes(value, width)) == value,
    decreases width,
{
    if width > 0 {
        let upper = be_bytes(value / 256, (width - 1) as nat);
        be_value_of_bytes(value / 256, (width - 1) as nat);
        assert(be_bytes(value, width).drop_last() =~= upper);
    }
}

/// The number that bytes spell is written in those bytes.
pub proof fn be_bytes_of_value(bytes: Seq<u8>)
    ensures
        be_bytes(be_value(bytes), bytes.len()) == bytes,
    decreases bytes.len(),
{
    if bytes.len() > 0 {
        be_bytes_of_value(bytes.drop_last());
        assert(bytes.drop_last().push(bytes.last()) =~= bytes);
    }
}

/// The capacities of the widths that the wire uses.
pub proof fn capacities()
    ensures
        capacity(1) == 0x100,
        capacity(2) == 0x1_0000,
        capacity(3) == 0x100_0000,
        capacity(4) == 0x1_0000_0000,
        capacity(8) == 0x1_0000_0000_0000_0000,
{
    reveal_with_fuel(capacity, 9);
}

/// More bytes hold more values.
pub proof fn capacity_grows(narrow: nat, wide: nat)
    requires
        narrow <= wide,
    ensures
        0 < capacity(narrow) <= capacity(wide),
    decreases wide,
{
    if narrow < wide {
        capacity_grows(narrow, (wide - 1) as nat);
    } else if narrow > 0 {
        capacity_grows((narrow - 1) as nat, (narrow - 1) as nat);
    }
}

/// Where each byte of a number stands, for the widths that the wire uses: the
/// byte at a place counts how often its power of 256 goes into the number,
/// and the most significant comes first.
pub proof fn bytes_by_place(value: nat)
    ensures
        be_bytes(value, 1) == seq![
            (value % 0x100) as u8,
        ],
        be_bytes(value, 2) == seq![
            (value / 0x100 % 0x100) as u8,
            (value % 0x100) as u8,
        ],
        be_bytes(value, 3) == seq![
            (value / 0x10000 % 0x100) as u8,
            (value / 0x100 % 0x100) as u8,
            (value % 0x100) as u8,
        ],
        be_bytes(value, 4) == seq![
            (value / 0x1000000 % 0x100) as u8,
            (value / 0x10000 % 0x100) as u8,
            (value / 0x100 % 0x100) as u8,
            (value % 0x100) as u8,
        ],
        be_bytes(value, 8) == seq![
            (value / 0x100000000000000 % 0x100) as u8,
            (value / 0x1000000000000 % 0x100) as u8,
            (value / 0x10000000000 % 0x100) as u8,
            (value / 0x100000000 % 0x100) as u8,
            (value / 0x1000000 % 0x100) as u8,
            (value / 0x10000 % 0x100) as u8,
            (value / 0x100 % 0x100) as u8,
            (value % 0x100) as u8,
        ],
{
    reveal_with_fuel(be_bytes, 9);
    assert(be_bytes(value, 1) =~= seq![
        (value % 0x100) as u8,
    ]);
    assert(be_bytes(value, 2) =~= seq![
        (value / 0x100 % 0x100) as u8,
        (value % 0x100) as u8,
    ]);
    assert(be_bytes(value, 3) =~= seq![
        (value / 0x10000 % 0x100) as u8,
        (value / 0x100 % 0x100) as u8,
        (value % 0x100) as u8,
    ]);
    assert(be_bytes(value, 4) =~= seq![
        (value / 0x1000000 % 0x100) as u8,
        (value / 0x10000 % 0x100) as u8,
        (value / 0x100 % 0x100) as u8,
        (value % 0x100) as u8,
    ]);
    assert(be_bytes(value, 8) =~= seq![
        (value / 0x100000000000000 % 0x100) as u8,
        (value / 0x1000000000000 % 0x100) as u8,
        (value / 0x10000000000 % 0x100) as u8,
        (value / 0x100000000 % 0x100) as u8,
        (value / 0x1000000 % 0x100) as u8,
        (value / 0x10000 % 0x100) as u8,
        (value / 0x100 % 0x100) as u8,
        (value % 0x100) as u8,
    ]);
}

/// What number bytes spell, for the widths that the wire uses: each byte times
/// the power of 256 of its place, the most significant first.
pub proof fn value_by_place(bytes: Seq<u8>)
    ensures
        bytes.len() == 0 ==> be_value(bytes) == 0,
        bytes.len() == 1 ==> be_value(bytes) == bytes[0],
        bytes.len() == 2 ==> be_value(bytes) == 0x100 * bytes[0] + bytes[1],
        bytes.len() == 3 ==> be_value(bytes) == 0x10000 * bytes[0] + 0x100 * bytes[1] + bytes[2],
        bytes.len() == 4 ==> be_value(bytes) == 0x1000000 * bytes[0] + 0x10000 * bytes[1] + 0x100 * bytes[2] + bytes[3],
        bytes.len() == 8 ==> be_value(bytes) == 0x100000000000000 * bytes[0] + 0x1000000000000 * bytes[1] + 0x10000000000 * bytes[2] + 0x100000000 * bytes[3] + 0x1000000 * bytes[4] + 0x10000 * bytes[5] + 0x100 * bytes[6] + bytes[7],
{
    reveal_with_fuel(be_value, 9);
}

/// One byte more, in any width: a number has its last byte behind those of
/// what 256 goes into it, and bytes spell their last and 256 times the rest.
pub proof fn one_byte_more(value: nat, width: nat, bytes: Seq<u8>, byte: u8)
    ensures
        be_bytes(value, 0).len() == 0,
        be_bytes((256 * value + byte) as nat, width + 1) == be_bytes(value, width).push(byte),
        be_value(bytes.push(byte)) == 256 * be_value(bytes) + byte,
{
    assert((256 * value + byte) as nat / 256 == value);
    assert(bytes.push(byte).drop_last() =~= bytes);
}

/// Append `value` to `out` in `width` bytes.
pub fn put(out: &mut Vec<u8>, value: u64, width: usize)
    ensures
        final(out)@ == old(out)@ + be_bytes(value as nat, width as nat),
    decreases width,
{
    if width > 0 {
        put(out, value / 256, width - 1);
        out.push((value % 256) as u8);
    }
}

/// The number that the `width` bytes of `bytes` from `at` on spell.
pub fn get(bytes: &[u8], at: usize, width: usize) -> (value: u64)
    requires
        width <= 8,
        at + width <= bytes@.len(),
    ensures
        value == be_value(bytes@.subrange(at as int, at + width)),
        value < capacity(width as nat),
{
    let mut value: u64 = 0;
    let mut taken: usize = 0;
    while taken < width
        invariant
            taken <= width <= 8,
            at + width <= bytes@.len(),
            value == be_value(bytes@.subrange(at as int, at + taken)),
            value < capacity(taken as nat),
        decreases width - taken,
    {
        let ghost longer = bytes@.subrange(at as int, at + taken + 1);
        proof {
            assert(at + taken < bytes.len());
            assert(longer.drop_last() =~= bytes@.subrange(at as int, at + taken));
            be_value_bound(longer);
            capacity_grows((taken + 1) as nat, 8);
            capacities();
        }
        value = value * 256 + bytes[at + taken] as u64;
        taken = taken + 1;
    }
    value
}

} // verus!
