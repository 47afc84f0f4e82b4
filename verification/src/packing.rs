//! Integer fields packed across a run of bytes.
//!
//! A run of bytes spells one number, most significant byte first. A field
//! is a window of bits in that number, given by how many bits lie below it
//! and by how many bits it is wide.
//!
//! The second half of this file goes the other way: from a number to the
//! bytes that spell it, and from fields to the number that packs them.

use vstd::arithmetic::power2::{lemma2_to64, lemma2_to64_rest, lemma_pow2_adds, pow2};
use vstd::prelude::*;

verus! {

/// The number that `run` spells, most significant byte first.
pub open spec fn be_number(run: Seq<u8>) -> nat
    decreases run.len(),
{
    if run.len() == 0 {
        0
    } else {
        be_number(run.drop_last()) * 256 + run.last() as nat
    }
}

/// The field of `width` bits that has `shift` bits below it in the number
/// that `run` spells.
pub open spec fn bit_field(run: Seq<u8>, shift: nat, width: nat) -> nat {
    (be_number(run) / pow2(shift)) % pow2(width)
}

/// The number that a run of four bytes spells, written out.
pub proof fn lemma_be_number_of_four(run: Seq<u8>)
    requires
        run.len() == 4,
    ensures
        be_number(run) == run[0] * 0x100_0000 + run[1] * 0x1_0000 + run[2] * 0x100 + run[3],
{
    reveal_with_fuel(be_number, 5);
}

/// The number that a run of four bytes spells, most significant byte first.
pub fn be_u32(run: &Vec<u8>) -> (n: u32)
    requires
        run.len() == 4,
    ensures
        n == be_number(run@),
{
    proof {
        lemma_be_number_of_four(run@);
    }
    let b0: u32 = run[0] as u32;
    let b1: u32 = run[1] as u32;
    let b2: u32 = run[2] as u32;
    let b3: u32 = run[3] as u32;
    b0 * 0x100_0000 + b1 * 0x1_0000 + b2 * 0x100 + b3
}

/// The number that a run of five bytes spells, written out.
pub proof fn lemma_be_number_of_five(run: Seq<u8>)
    requires
        run.len() == 5,
    ensures
        be_number(run) == run[0] * 0x1_0000_0000 + run[1] * 0x100_0000 + run[2] * 0x1_0000
            + run[3] * 0x100 + run[4],
{
    let front = run.drop_last();
    lemma_be_number_of_four(front);
}

/// The four ten-bit fields of a five-byte run, as the shifts and masks that
/// recover them from the bytes widened to sixteen bits.
pub proof fn lemma_fields_of_five(run: Seq<u8>)
    requires
        run.len() == 5,
    ensures
        bit_field(run, 30, 10) == ((run[0] as u16) << 2) | ((run[1] as u16) >> 6),
        bit_field(run, 20, 10) == (((run[1] as u16) & 0b0011_1111) << 4) | ((run[2] as u16) >> 4),
        bit_field(run, 10, 10) == (((run[2] as u16) & 0b0000_1111) << 6) | ((run[3] as u16) >> 2),
        bit_field(run, 0, 10) == (((run[3] as u16) & 0b0000_0011) << 8) | (run[4] as u16),
{
    lemma_be_number_of_five(run);
    lemma2_to64();
    let b0 = run[0];
    let b1 = run[1];
    let b2 = run[2];
    let b3 = run[3];
    let b4 = run[4];
    let n: u64 = (b0 * 0x1_0000_0000 + b1 * 0x100_0000 + b2 * 0x1_0000 + b3 * 0x100 + b4) as u64;
    assert((n / 0x4000_0000) % 0x400 == ((b0 as u16) << 2) | ((b1 as u16) >> 6)) by (bit_vector)
        requires
            n == b0 * 0x1_0000_0000 + b1 * 0x100_0000 + b2 * 0x1_0000 + b3 * 0x100 + b4,
    ;
    assert((n / 0x10_0000) % 0x400 == (((b1 as u16) & 0b0011_1111) << 4) | ((b2 as u16) >> 4))
        by (bit_vector)
        requires
            n == b0 * 0x1_0000_0000 + b1 * 0x100_0000 + b2 * 0x1_0000 + b3 * 0x100 + b4,
    ;
    assert((n / 0x400) % 0x400 == (((b2 as u16) & 0b0000_1111) << 6) | ((b3 as u16) >> 2))
        by (bit_vector)
        requires
            n == b0 * 0x1_0000_0000 + b1 * 0x100_0000 + b2 * 0x1_0000 + b3 * 0x100 + b4,
    ;
    assert((n / 1) % 0x400 == (((b3 as u16) & 0b0000_0011) << 8) | (b4 as u16)) by (bit_vector)
        requires
            n == b0 * 0x1_0000_0000 + b1 * 0x100_0000 + b2 * 0x1_0000 + b3 * 0x100 + b4,
    ;
}

/// The two ten-bit and two six-bit fields of a four-byte run, as the shifts
/// and masks that recover them from the bytes widened to sixteen bits.
pub proof fn lemma_fields_of_four(run: Seq<u8>)
    requires
        run.len() == 4,
    ensures
        bit_field(run, 22, 10) == ((run[0] as u16) << 2) | ((run[1] as u16) >> 6),
        bit_field(run, 12, 10) == (((run[1] as u16) & 0b0011_1111) << 4) | ((run[2] as u16) >> 4),
        bit_field(run, 6, 6) == (((run[2] as u16) & 0b0000_1111) << 2) | ((run[3] as u16) >> 6),
        bit_field(run, 0, 6) == (run[3] as u16) & 0b0011_1111,
{
    lemma_be_number_of_four(run);
    lemma2_to64();
    let b0 = run[0];
    let b1 = run[1];
    let b2 = run[2];
    let b3 = run[3];
    let n: u64 = (b0 * 0x100_0000 + b1 * 0x1_0000 + b2 * 0x100 + b3) as u64;
    assert((n / 0x40_0000) % 0x400 == ((b0 as u16) << 2) | ((b1 as u16) >> 6)) by (bit_vector)
        requires
            n == b0 * 0x100_0000 + b1 * 0x1_0000 + b2 * 0x100 + b3,
    ;
    assert((n / 0x1000) % 0x400 == (((b1 as u16) & 0b0011_1111) << 4) | ((b2 as u16) >> 4))
        by (bit_vector)
        requires
            n == b0 * 0x100_0000 + b1 * 0x1_0000 + b2 * 0x100 + b3,
    ;
    assert((n / 0x40) % 0x40 == (((b2 as u16) & 0b0000_1111) << 2) | ((b3 as u16) >> 6))
        by (bit_vector)
        requires
            n == b0 * 0x100_0000 + b1 * 0x1_0000 + b2 * 0x100 + b3,
    ;
    assert((n / 1) % 0x40 == (b3 as u16) & 0b0011_1111) by (bit_vector)
        requires
            n == b0 * 0x100_0000 + b1 * 0x1_0000 + b2 * 0x100 + b3,
    ;
}

/// The `len` bytes that spell `n`, most significant byte first. Where `n`
/// does not fit in `len` bytes, its high part is left out.
pub open spec fn be_bytes(n: nat, len: nat) -> Seq<u8>
    decreases len,
{
    if len == 0 {
        Seq::empty()
    } else {
        be_bytes(n / 256, (len - 1) as nat).push((n % 256) as u8)
    }
}

/// `be_bytes(n, len)` is `len` bytes long.
pub proof fn lemma_be_bytes_len(n: nat, len: nat)
    ensures
        be_bytes(n, len).len() == len,
    decreases len,
{
    if len > 0 {
        lemma_be_bytes_len(n / 256, (len - 1) as nat);
    }
}

/// A number that fits in `len` bytes is the number that its `len` bytes
/// spell.
pub proof fn lemma_be_number_of_be_bytes(n: nat, len: nat)
    requires
        n < pow2(8 * len),
    ensures
        be_number(be_bytes(n, len)) == n,
    decreases len,
{
    lemma2_to64();
    if len > 0 {
        let front = be_bytes(n / 256, (len - 1) as nat);
        lemma_pow2_adds(8, (8 * (len - 1)) as nat);
        lemma_be_number_of_be_bytes(n / 256, (len - 1) as nat);
        lemma_be_bytes_len(n / 256, (len - 1) as nat);
        let run = be_bytes(n, len);
        assert(run.drop_last() =~= front);
    }
}

/// The bytes of a run are the bytes that spell the number that the run
/// spells.
pub proof fn lemma_be_bytes_of_be_number(run: Seq<u8>)
    ensures
        be_bytes(be_number(run), run.len()) == run,
        be_number(run) < pow2(8 * run.len()),
    decreases run.len(),
{
    lemma2_to64();
    if run.len() > 0 {
        let front = run.drop_last();
        lemma_be_bytes_of_be_number(front);
        lemma_pow2_adds(8, (8 * (run.len() - 1)) as nat);
    }
}

/// The number that packs four fields of ten bits each, the first one
/// highest.
pub open spec fn pack_roots(x: u16, y: u16, out_x: u16, out_y: u16) -> nat {
    (((x as nat * 1024 + y as nat) * 1024 + out_x as nat) * 1024 + out_y as nat)
}

/// The number that packs two fields of ten bits and two of six bits, the
/// first one highest.
pub open spec fn pack_instance(x: u16, y: u16, name_len: nat, socket_count: nat) -> nat {
    (((x as nat * 1024 + y as nat) * 64 + name_len) * 64 + socket_count)
}

/// The fields of the five bytes that spell `pack_roots(..)` are the fields
/// that were packed.
pub proof fn lemma_fields_of_packed_roots(x: u16, y: u16, out_x: u16, out_y: u16)
    requires
        x < 1024,
        y < 1024,
        out_x < 1024,
        out_y < 1024,
    ensures
        be_bytes(pack_roots(x, y, out_x, out_y), 5).len() == 5,
        bit_field(be_bytes(pack_roots(x, y, out_x, out_y), 5), 30, 10) == x,
        bit_field(be_bytes(pack_roots(x, y, out_x, out_y), 5), 20, 10) == y,
        bit_field(be_bytes(pack_roots(x, y, out_x, out_y), 5), 10, 10) == out_x,
        bit_field(be_bytes(pack_roots(x, y, out_x, out_y), 5), 0, 10) == out_y,
{
    lemma2_to64();
    lemma2_to64_rest();
    let n = pack_roots(x, y, out_x, out_y);
    lemma_be_bytes_len(n, 5);
    lemma_be_number_of_be_bytes(n, 5);
}

/// The fields of the four bytes that spell `pack_instance(..)` are the
/// fields that were packed.
pub proof fn lemma_fields_of_packed_instance(x: u16, y: u16, name_len: nat, socket_count: nat)
    requires
        x < 1024,
        y < 1024,
        name_len < 64,
        socket_count < 64,
    ensures
        be_bytes(pack_instance(x, y, name_len, socket_count), 4).len() == 4,
        bit_field(be_bytes(pack_instance(x, y, name_len, socket_count), 4), 22, 10) == x,
        bit_field(be_bytes(pack_instance(x, y, name_len, socket_count), 4), 12, 10) == y,
        bit_field(be_bytes(pack_instance(x, y, name_len, socket_count), 4), 6, 6) == name_len,
        bit_field(be_bytes(pack_instance(x, y, name_len, socket_count), 4), 0, 6) == socket_count,
{
    lemma2_to64();
    let n = pack_instance(x, y, name_len, socket_count);
    lemma_be_bytes_len(n, 4);
    lemma_be_number_of_be_bytes(n, 4);
}

/// The fields of a run of five bytes fit in ten bits each and pack to the
/// number that the run spells.
pub proof fn lemma_packed_fields_of_five(run: Seq<u8>)
    requires
        run.len() == 5,
    ensures
        bit_field(run, 30, 10) < 1024,
        bit_field(run, 20, 10) < 1024,
        bit_field(run, 10, 10) < 1024,
        bit_field(run, 0, 10) < 1024,
        pack_roots(
            bit_field(run, 30, 10) as u16,
            bit_field(run, 20, 10) as u16,
            bit_field(run, 10, 10) as u16,
            bit_field(run, 0, 10) as u16,
        ) == be_number(run),
{
    lemma2_to64();
    lemma2_to64_rest();
    lemma_be_bytes_of_be_number(run);
}

/// The fields of a run of four bytes fit in ten and in six bits and pack to
/// the number that the run spells.
pub proof fn lemma_packed_fields_of_four(run: Seq<u8>)
    requires
        run.len() == 4,
    ensures
        bit_field(run, 22, 10) < 1024,
        bit_field(run, 12, 10) < 1024,
        bit_field(run, 6, 6) < 64,
        bit_field(run, 0, 6) < 64,
        pack_instance(
            bit_field(run, 22, 10) as u16,
            bit_field(run, 12, 10) as u16,
            bit_field(run, 6, 6),
            bit_field(run, 0, 6),
        ) == be_number(run),
{
    lemma2_to64();
    lemma_be_bytes_of_be_number(run);
}

} // verus!
