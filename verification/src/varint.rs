//! Variable-length integers, as the `octets` crate writes and reads them.
//!
//! The two high bits of the first byte say how many bytes there are: one,
//! two, four or eight. The other bits are the number, most significant first.

use octets::BufferTooShortError;
use octets::Octets;
use octets::OctetsMut;

use vstd::prelude::*;

verus! {

/// The largest number that has a variable-length encoding.
pub const MAX_VAR_INT: u64 = 4_611_686_018_427_387_903;

/// `octets::BufferTooShortError`, which holds nothing.
#[verifier::external_type_specification]
#[verifier::external_body]
pub struct ExBufferTooShortError(BufferTooShortError);

/// How many bytes the encoding of `v` has.
pub open spec fn varint_size(v: u64) -> nat {
    if v <= 63 {
        1
    } else if v <= 16_383 {
        2
    } else if v <= 1_073_741_823 {
        4
    } else {
        8
    }
}

/// How many bytes an encoding that starts with `first` has.
pub open spec fn varint_size_of(first: u8) -> nat {
    if first < 0x40 {
        1
    } else if first < 0x80 {
        2
    } else if first < 0xc0 {
        4
    } else {
        8
    }
}

/// The number that `bytes` are, most significant byte first.
pub open spec fn big_endian(bytes: Seq<u8>) -> nat
    decreases bytes.len(),
{
    if bytes.len() == 0 {
        0
    } else {
        big_endian(bytes.drop_last()) * 256 + bytes.last() as nat
    }
}

/// The last `size` bytes of `v`, most significant first.
pub open spec fn low_bytes(v: nat, size: nat) -> Seq<u8>
    decreases size,
{
    if size == 0 {
        Seq::empty()
    } else {
        low_bytes(v / 256, (size - 1) as nat).push((v % 256) as u8)
    }
}

/// What the two high bits of the first byte add to the number that the bytes
/// of an encoding of `size` bytes are.
pub open spec fn size_mark(size: nat) -> nat {
    if size == 1 {
        0
    } else if size == 2 {
        0x4000
    } else if size == 4 {
        0x8000_0000
    } else {
        0xc000_0000_0000_0000
    }
}

/// The encoding of `v`.
pub open spec fn varint_bytes(v: u64) -> Seq<u8> {
    low_bytes(v as nat + size_mark(varint_size(v)), varint_size(v))
}

/// The number at the front of `bytes` and the size of its encoding, if there
/// are enough bytes for it.
pub open spec fn varint_at_front(bytes: Seq<u8>) -> Option<(nat, nat)> {
    if bytes.len() == 0 || bytes.len() < varint_size_of(bytes[0]) {
        None
    } else {
        let size = varint_size_of(bytes[0]);
        Some(((big_endian(bytes.take(size as int)) - size_mark(size)) as nat, size))
    }
}

/// `octets::varint_len` is the size of the encoding. It panics on a number
/// that has none.
pub assume_specification[ octets::varint_len ](v: u64) -> (r: usize)
    requires
        v <= MAX_VAR_INT,
    ensures
        r == varint_size(v),
;

/// Writes the encoding of `v` to the front of `buf` with
/// `octets::OctetsMut::put_varint`: it fails, and writes nothing, if and only
/// if `buf` is too short. It panics on a number that has no encoding.
#[verifier::external_body]
pub(crate) fn put_varint(buf: &mut Vec<u8>, v: u64) -> (r: Result<usize, BufferTooShortError>)
    requires
        v <= MAX_VAR_INT,
    ensures
        match r {
            Ok(off) => {
                &&& varint_size(v) <= old(buf)@.len()
                &&& off == varint_size(v)
                &&& final(buf)@ == varint_bytes(v) + old(buf)@.skip(off as int)
            },
            Err(_) => {
                &&& old(buf)@.len() < varint_size(v)
                &&& final(buf)@ == old(buf)@
            },
        },
{
    let mut b = OctetsMut::with_slice(buf);
    b.put_varint(v)?;
    Ok(b.off())
}

/// Writes `v` to `buf` from `off` on with `octets::OctetsMut::put_bytes`: it
/// fails, and writes nothing, if and only if `buf` is too short.
#[verifier::external_body]
pub(crate) fn put_bytes(buf: &mut Vec<u8>, off: usize, v: &[u8]) -> (r: Result<
    (),
    BufferTooShortError,
>)
    requires
        off <= old(buf)@.len(),
    ensures
        match r {
            Ok(_) => {
                &&& off + v@.len() <= old(buf)@.len()
                &&& final(buf)@ == old(buf)@.take(off as int) + v@ + old(buf)@.skip(off + v@.len())
            },
            Err(_) => {
                &&& old(buf)@.len() < off + v@.len()
                &&& final(buf)@ == old(buf)@
            },
        },
{
    OctetsMut::with_slice(&mut buf[off..]).put_bytes(v)
}

/// Reads the number at the front of `buf` with `octets::Octets::get_varint`,
/// and where it ends with `octets::Octets::off`: it fails if and only if
/// `buf` is too short.
#[verifier::external_body]
pub(crate) fn get_varint(buf: &[u8]) -> (r: Result<(u64, usize), BufferTooShortError>)
    ensures
        match r {
            Ok((v, off)) => varint_at_front(buf@) == Some((v as nat, off as nat)),
            Err(_) => varint_at_front(buf@) is None,
        },
{
    let mut b = Octets::with_slice(buf);
    let v = b.get_varint()?;
    Ok((v, b.off()))
}

/// Whether `size` bytes are enough for `v`.
spec fn fits(v: nat, size: nat) -> bool
    decreases size,
{
    if size == 0 {
        v == 0
    } else {
        fits(v / 256, (size - 1) as nat)
    }
}

/// The byte of `v` that `size - 1` bytes follow.
spec fn high_byte(v: nat, size: nat) -> nat
    decreases size,
{
    if size <= 1 {
        v % 256
    } else {
        high_byte(v / 256, (size - 1) as nat)
    }
}

proof fn lemma_low_bytes(v: nat, size: nat)
    ensures
        low_bytes(v, size).len() == size,
        fits(v, size) ==> big_endian(low_bytes(v, size)) == v,
        size > 0 ==> low_bytes(v, size)[0] == high_byte(v, size),
    decreases size,
{
    if size > 0 {
        lemma_low_bytes(v / 256, (size - 1) as nat);
        let rest = low_bytes(v / 256, (size - 1) as nat);
        assert(rest.push((v % 256) as u8).drop_last() =~= rest);
    }
}

/// An encoded number has the size that its value and its first byte tell.
pub proof fn law_varint_size(v: u64)
    requires
        v <= MAX_VAR_INT,
    ensures
        varint_bytes(v).len() == varint_size(v),
        varint_size_of(varint_bytes(v)[0]) == varint_size(v),
{
    let size = varint_size(v);
    let marked = v as nat + size_mark(size);
    lemma_low_bytes(marked, size);
    reveal_with_fuel(high_byte, 9);
}

/// Reading a number gives back what was written, whatever follows it.
pub proof fn law_varint_round_trip(v: u64, rest: Seq<u8>)
    requires
        v <= MAX_VAR_INT,
    ensures
        varint_at_front(varint_bytes(v) + rest) == Some((v as nat, varint_size(v))),
{
    law_varint_size(v);
    let size = varint_size(v);
    let marked = v as nat + size_mark(size);
    lemma_low_bytes(marked, size);
    reveal_with_fuel(fits, 9);
    assert((varint_bytes(v) + rest).take(size as int) =~= varint_bytes(v));
}

proof fn lemma_big_endian_bounds(bytes: Seq<u8>, low: nat, high: nat, size: nat)
    requires
        bytes.len() == size,
        size > 0,
        low <= bytes[0] <= high,
    ensures
        scaled(low, (size - 1) as nat) <= big_endian(bytes) < scaled(high + 1, (size - 1) as nat),
    decreases size,
{
    if size == 1 {
        assert(bytes.drop_last() =~= Seq::empty());
        reveal_with_fuel(big_endian, 2);
    } else {
        lemma_big_endian_bounds(bytes.drop_last(), low, high, (size - 1) as nat);
    }
}

/// `v` with `places` zero bytes behind it.
spec fn scaled(v: nat, places: nat) -> nat
    decreases places,
{
    if places == 0 {
        v
    } else {
        scaled(v, (places - 1) as nat) * 256
    }
}

/// A number that was read lay within the bytes, and can be written in no more
/// bytes than it had.
pub proof fn law_varint_read_is_writable(bytes: Seq<u8>)
    ensures
        varint_at_front(bytes) matches Some((v, size)) ==> {
            &&& v <= MAX_VAR_INT
            &&& varint_size(v as u64) <= size <= bytes.len()
        },
{
    if varint_at_front(bytes) is Some {
        let size = varint_size_of(bytes[0]);
        let front = bytes.take(size as int);
        assert(front[0] == bytes[0]);
        reveal_with_fuel(scaled, 8);
        if size == 1 {
            lemma_big_endian_bounds(front, 0, 0x3f, 1);
        } else if size == 2 {
            lemma_big_endian_bounds(front, 0x40, 0x7f, 2);
        } else if size == 4 {
            lemma_big_endian_bounds(front, 0x80, 0xbf, 4);
        } else {
            lemma_big_endian_bounds(front, 0xc0, 0xff, 8);
        }
    }
}

/// The encoding of a number has one, two, four or eight bytes, as few as the
/// number allows.
pub proof fn law_varint_is_short(v: u64)
    requires
        v <= MAX_VAR_INT,
    ensures
        varint_bytes(v).len() == if v < 0x40 {
            1
        } else if v < 0x4000 {
            2
        } else if v < 0x4000_0000 {
            4
        } else {
            8nat
        },
        v < 0x40 ==> varint_bytes(v)[0] < 0x40,
        0x40 <= v < 0x4000 ==> 0x40 <= varint_bytes(v)[0] < 0x80,
        0x4000 <= v < 0x4000_0000 ==> 0x80 <= varint_bytes(v)[0] < 0xc0,
        0x4000_0000 <= v ==> 0xc0 <= varint_bytes(v)[0],
{
    law_varint_size(v);
}

/// A number can be read exactly if all the bytes that the first one asks for
/// are there, and then it is what the bytes say, most significant first,
/// without the mark in the first.
pub proof fn law_varint_is_read(bytes: Seq<u8>)
    ensures
        bytes.len() == 0 ==> varint_at_front(bytes) is None,
        bytes.len() > 0 && bytes[0] < 0x40 ==> varint_at_front(bytes) == Some(
            (bytes[0] as nat, 1nat),
        ),
        bytes.len() > 0 && 0x40 <= bytes[0] < 0x80 ==> varint_at_front(bytes) == if bytes.len()
            < 2 {
            None
        } else {
            Some((((bytes[0] - 0x40) * 0x100 + bytes[1]) as nat, 2nat))
        },
        bytes.len() > 0 && 0x80 <= bytes[0] < 0xc0 ==> varint_at_front(bytes) == if bytes.len()
            < 4 {
            None
        } else {
            Some(
                (
                    ((bytes[0] - 0x80) * 0x100_0000 + bytes[1] * 0x1_0000 + bytes[2] * 0x100
                        + bytes[3]) as nat,
                    4nat,
                ),
            )
        },
        bytes.len() > 0 && 0xc0 <= bytes[0] ==> (varint_at_front(bytes) is None <==> bytes.len()
            < 8),
        bytes.len() >= 8 && 0xc0 <= bytes[0] ==> varint_at_front(bytes) == Some(
            (
                ((bytes[0] - 0xc0) * 0x100_0000_0000_0000 + bytes[1] * 0x1_0000_0000_0000 + bytes[2]
                    * 0x100_0000_0000 + bytes[3] * 0x1_0000_0000 + bytes[4] * 0x100_0000 + bytes[5]
                    * 0x1_0000 + bytes[6] * 0x100 + bytes[7]) as nat,
                8nat,
            ),
        ),
{
    assert(bytes.take(0) =~= Seq::empty());
    assert(big_endian(bytes.take(0)) == 0);
    if bytes.len() >= 1 {
        lemma_one_more_byte(bytes, 1);
    }
    if bytes.len() >= 2 {
        lemma_one_more_byte(bytes, 2);
    }
    if bytes.len() >= 4 {
        lemma_one_more_byte(bytes, 3);
        lemma_one_more_byte(bytes, 4);
    }
    if bytes.len() >= 8 {
        lemma_one_more_byte(bytes, 5);
        lemma_one_more_byte(bytes, 6);
        lemma_one_more_byte(bytes, 7);
        lemma_one_more_byte(bytes, 8);
    }
}

proof fn lemma_one_more_byte(bytes: Seq<u8>, n: int)
    requires
        0 < n <= bytes.len(),
    ensures
        big_endian(bytes.take(n)) == big_endian(bytes.take(n - 1)) * 256 + bytes[n - 1],
{
    assert(bytes.take(n).drop_last() =~= bytes.take(n - 1));
}

} // verus!
