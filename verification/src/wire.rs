//! Big-endian integer fields, the wire representation every table in this
//! codec is built from.
use vstd::prelude::*;

verus! {

/// The unsigned value stored big-endian as the bytes `b0 b1`, in `[0, 65535]`.
pub open spec fn be16(b0: u8, b1: u8) -> int {
    b0 * 256 + b1
}

/// The unsigned value stored big-endian as the bytes `b0 b1 b2 b3`.
pub open spec fn be32(b0: u8, b1: u8, b2: u8, b3: u8) -> int {
    ((b0 * 256 + b1) * 256 + b2) * 256 + b3
}

/// The two bytes that store `n` big-endian, for `n` in `[0, 65535]`.
pub open spec fn be16_bytes(n: int) -> Seq<u8> {
    seq![(n / 256) as u8, (n % 256) as u8]
}

/// The four bytes that store `n` big-endian, for `n` in `[0, 4294967295]`.
pub open spec fn be32_bytes(n: int) -> Seq<u8> {
    seq![
        (n / 16777216) as u8,
        (n / 65536 % 256) as u8,
        (n / 256 % 256) as u8,
        (n % 256) as u8,
    ]
}

/// Two's-complement 16-bit representative of `v`, in `[0, 65535]`.
pub open spec fn u16_repr_of_i16(v: i16) -> int {
    if v >= 0 {
        v as int
    } else {
        v as int + 65536
    }
}

/// The signed 16-bit value whose two's-complement representative is `n`.
pub open spec fn i16_of_u16_repr(n: int) -> int {
    if n >= 32768 {
        n - 65536
    } else {
        n
    }
}

/// Two's-complement 32-bit representative of `v`, in `[0, 4294967295]`.
pub open spec fn u32_repr_of_i32(v: i32) -> int {
    if v >= 0 {
        v as int
    } else {
        v as int + 4294967296
    }
}

/// The signed 32-bit value whose two's-complement representative is `n`.
pub open spec fn i32_of_u32_repr(n: int) -> int {
    if n >= 2147483648 {
        n - 4294967296
    } else {
        n
    }
}

/// One-byte two's-complement representative of a value in `[-128, 127]`.
pub open spec fn u8_repr_of_int(v: int) -> int {
    if v >= 0 {
        v
    } else {
        v + 256
    }
}

/// The signed value in `[-128, 127]` whose one-byte representative is `n`.
pub open spec fn int_of_u8_repr(n: int) -> int {
    if n >= 128 {
        n - 256
    } else {
        n
    }
}

/// The two bytes that store `v` as a big-endian signed 16-bit field.
pub open spec fn i16_be_bytes(v: i16) -> Seq<u8> {
    be16_bytes(u16_repr_of_i16(v))
}

/// The four bytes that store `v` as a big-endian signed 32-bit field.
pub open spec fn i32_be_bytes(v: i32) -> Seq<u8> {
    be32_bytes(u32_repr_of_i32(v))
}

/// Appends a big-endian unsigned 16-bit field.
pub fn push_u16(out: &mut Vec<u8>, v: u16)
    ensures
        final(out)@ == old(out)@ + be16_bytes(v as int),
{
    out.push((v / 256) as u8);
    out.push((v % 256) as u8);
    proof {
        assert(out@ =~= old(out)@ + be16_bytes(v as int));
    }
}

/// Reads a big-endian unsigned 16-bit field.
pub fn read_u16(data: &Vec<u8>, pos: usize) -> (r: u16)
    requires
        pos + 2 <= data.len(),
    ensures
        r == be16(data@[pos as int], data@[pos as int + 1]),
{
    (data[pos] as u16) * 256 + (data[pos + 1] as u16)
}

/// Appends a big-endian signed 16-bit field, two's complement.
pub fn push_i16(out: &mut Vec<u8>, v: i16)
    ensures
        final(out)@ == old(out)@ + i16_be_bytes(v),
{
    let m: i32 = if v < 0 {
        v as i32 + 65536
    } else {
        v as i32
    };
    out.push((m / 256) as u8);
    out.push((m % 256) as u8);
    proof {
        assert(out@ =~= old(out)@ + i16_be_bytes(v));
    }
}

/// Reads a big-endian signed 16-bit field, two's complement.
pub fn read_i16(data: &Vec<u8>, pos: usize) -> (r: i16)
    requires
        pos + 2 <= data.len(),
    ensures
        r as int == i16_of_u16_repr(be16(data@[pos as int], data@[pos as int + 1])),
{
    let n: i32 = (data[pos] as i32) * 256 + (data[pos + 1] as i32);
    let m: i32 = if n >= 32768 {
        n - 65536
    } else {
        n
    };
    m as i16
}

/// Appends a big-endian unsigned 32-bit field.
pub fn push_u32(out: &mut Vec<u8>, v: u32)
    ensures
        final(out)@ == old(out)@ + be32_bytes(v as int),
{
    out.push((v / 16777216) as u8);
    out.push((v / 65536 % 256) as u8);
    out.push((v / 256 % 256) as u8);
    out.push((v % 256) as u8);
    proof {
        assert(out@ =~= old(out)@ + be32_bytes(v as int));
    }
}

/// Reads a big-endian unsigned 32-bit field.
pub fn read_u32(data: &Vec<u8>, pos: usize) -> (r: u32)
    requires
        pos + 4 <= data.len(),
    ensures
        r == be32(
            data@[pos as int],
            data@[pos as int + 1],
            data@[pos as int + 2],
            data@[pos as int + 3],
        ),
{
    (data[pos] as u32) * 16777216 + (data[pos + 1] as u32) * 65536 + (data[pos + 2] as u32) * 256
        + (data[pos + 3] as u32)
}

/// Appends a big-endian signed 32-bit field, two's complement.
pub fn push_i32(out: &mut Vec<u8>, v: i32)
    ensures
        final(out)@ == old(out)@ + i32_be_bytes(v),
{
    let m: i64 = if v < 0 {
        v as i64 + 4294967296
    } else {
        v as i64
    };
    out.push((m / 16777216) as u8);
    out.push((m / 65536 % 256) as u8);
    out.push((m / 256 % 256) as u8);
    out.push((m % 256) as u8);
    proof {
        assert(out@ =~= old(out)@ + i32_be_bytes(v));
    }
}

/// Reads a big-endian signed 32-bit field, two's complement.
pub fn read_i32(data: &Vec<u8>, pos: usize) -> (r: i32)
    requires
        pos + 4 <= data.len(),
    ensures
        r as int == i32_of_u32_repr(
            be32(
                data@[pos as int],
                data@[pos as int + 1],
                data@[pos as int + 2],
                data@[pos as int + 3],
            ),
        ),
{
    let n: i64 = (data[pos] as i64) * 16777216 + (data[pos + 1] as i64) * 65536 + (data[pos
        + 2] as i64) * 256 + (data[pos + 3] as i64);
    let m: i64 = if n >= 2147483648 {
        n - 4294967296
    } else {
        n
    };
    m as i32
}

} // verus!
