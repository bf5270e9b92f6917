//! The bytes of stored records: how numbers, addresses and quantities are
//! laid out, little-endian, and read back.

use crate::constants::Pubkey;
use crate::instruction::{le_at, read_u64};
use crate::quantities::WrappedI80F48;
use vstd::prelude::*;

verus! {

/// The `n` little-endian bytes of `x`, the lowest first.
pub open spec fn le_seq(x: nat, n: nat) -> Seq<u8>
    decreases n,
{
    if n == 0 {
        Seq::empty()
    } else {
        seq![(x % 256) as u8] + le_seq(x / 256, (n - 1) as nat)
    }
}

/// What is left of `x` above its `n` lowest bytes.
pub open spec fn above(x: nat, n: nat) -> nat
    decreases n,
{
    if n == 0 {
        x
    } else {
        above(x / 256, (n - 1) as nat)
    }
}

/// Whether `s` holds `piece` from place `at` on.
pub open spec fn holds_at(s: Seq<u8>, at: int, piece: Seq<u8>) -> bool {
    0 <= at && at + piece.len() <= s.len() && s.subrange(at, at + piece.len()) == piece
}

/// `n` bytes zero.
pub open spec fn zeros(n: nat) -> Seq<u8> {
    Seq::new(n, |i: int| 0u8)
}

/// A number has as many little-endian bytes as are asked for.
pub proof fn lemma_le_seq_len(x: nat, n: nat)
    ensures
        le_seq(x, n).len() == n,
    decreases n,
{
    if n > 0 {
        lemma_le_seq_len(x / 256, (n - 1) as nat);
    }
}

/// Appending to what was appended is appending both.
pub proof fn lemma_appended(a: Seq<u8>, b: Seq<u8>, c: Seq<u8>)
    ensures
        (a + b) + c == a + (b + c),
{
    assert((a + b) + c =~= a + (b + c));
}

/// What stands in the middle of a sequence is held where what stands before
/// it ends.
pub proof fn lemma_holds_in_the_middle(before: Seq<u8>, piece: Seq<u8>, after: Seq<u8>)
    ensures
        holds_at(before + piece + after, before.len() as int, piece),
{
    let s = before + piece + after;
    assert(s.subrange(before.len() as int, (before.len() + piece.len()) as int) =~= piece);
}

/// Where two pieces are held one behind the other, each is held.
pub proof fn lemma_holds_both(s: Seq<u8>, at: int, first: Seq<u8>, second: Seq<u8>)
    requires
        holds_at(s, at, first + second),
    ensures
        holds_at(s, at, first),
        holds_at(s, at + first.len(), second),
{
    let both = first + second;
    assert(s.subrange(at, at + first.len()) =~= first) by {
        assert forall|i: int| 0 <= i < first.len() implies s.subrange(at, at + first.len())[i]
            == first[i] by {
            assert(s.subrange(at, at + both.len())[i] == both[i]);
        }
    }
    assert(s.subrange(at + first.len(), at + first.len() + second.len()) =~= second) by {
        assert forall|i: int| 0 <= i < second.len() implies s.subrange(
            at + first.len(),
            at + first.len() + second.len(),
        )[i] == second[i] by {
            assert(s.subrange(at, at + both.len())[first.len() + i] == both[first.len() + i]);
        }
    }
}

/// A number is read back from its little-endian bytes, where it has no more
/// bytes than were written.
pub proof fn lemma_number_read_back(s: Seq<u8>, at: int, x: nat, n: nat)
    requires
        holds_at(s, at, le_seq(x, n)),
        above(x, n) == 0,
    ensures
        le_at(s, at, n) == x,
    decreases n,
{
    lemma_le_seq_len(x, n);
    if n > 0 {
        let rest = le_seq(x / 256, (n - 1) as nat);
        lemma_le_seq_len(x / 256, (n - 1) as nat);
        lemma_holds_both(s, at, seq![(x % 256) as u8], rest);
        assert(s[at] == s.subrange(at, at + 1)[0]);
        lemma_number_read_back(s, at + 1, x / 256, (n - 1) as nat);
    }
}

/// Numbers of 8, 16, 32 and 64 bits have one, two, four and eight bytes.
pub proof fn lemma_widths(x: nat)
    ensures
        x <= 0xFF ==> above(x, 1) == 0,
        x <= 0xFFFF ==> above(x, 2) == 0,
        x <= 0xFFFF_FFFF ==> above(x, 4) == 0,
        x <= 0xFFFF_FFFF_FFFF_FFFF ==> above(x, 8) == 0,
{
    reveal_with_fuel(above, 9);
}

/// Appends the `n` little-endian bytes of `x`.
pub fn put_number(out: &mut Vec<u8>, x: u64, n: usize)
    ensures
        final(out)@ == old(out)@ + le_seq(x as nat, n as nat),
{
    let mut left: u64 = x;
    let mut i: usize = 0;
    proof {
        assert(out@ + le_seq(left as nat, n as nat) == old(out)@ + le_seq(x as nat, n as nat));
    }
    while i < n
        invariant
            i <= n,
            out@ + le_seq(left as nat, (n - i) as nat) == old(out)@ + le_seq(x as nat, n as nat),
        decreases n - i,
    {
        let ghost before = out@;
        let ghost tail = le_seq((left / 256) as nat, (n - i - 1) as nat);
        proof {
            assert(le_seq(left as nat, (n - i) as nat) == seq![(left % 256) as u8] + tail);
        }
        out.push((left % 256) as u8);
        proof {
            assert(out@ + tail =~= before + (seq![(left % 256) as u8] + tail));
        }
        left = left / 256;
        i = i + 1;
    }
    proof {
        assert(out@ + le_seq(left as nat, 0) =~= out@);
    }
}

/// Appends the 32 bytes of an address.
pub fn put_key(out: &mut Vec<u8>, key: &Pubkey)
    ensures
        final(out)@ == old(out)@ + key@,
{
    let mut i: usize = 0;
    while i < 32
        invariant
            i <= 32,
            out@ == old(out)@ + key@.subrange(0, i as int),
        decreases 32 - i,
    {
        let ghost before = out@;
        out.push(key[i]);
        proof {
            assert(out@ =~= old(out)@ + key@.subrange(0, i + 1));
        }
        i = i + 1;
    }
    proof {
        assert(key@.subrange(0, 32) =~= key@);
    }
}

/// Appends `n` bytes zero.
pub fn put_zeros(out: &mut Vec<u8>, n: usize)
    ensures
        final(out)@ == old(out)@ + zeros(n as nat),
{
    let mut i: usize = 0;
    while i < n
        invariant
            i <= n,
            out@ == old(out)@ + zeros(i as nat),
        decreases n - i,
    {
        out.push(0u8);
        proof {
            assert(out@ =~= old(out)@ + zeros((i + 1) as nat));
        }
        i = i + 1;
    }
}

/// Reads the 32 bytes of an address.
pub fn get_key(data: &[u8], at: usize) -> (key: Pubkey)
    requires
        at + 32 <= data@.len(),
    ensures
        key@ == data@.subrange(at as int, at + 32),
{
    let len = data.len();
    let mut key = [0u8; 32];
    let mut i: usize = 0;
    while i < 32
        invariant
            i <= 32,
            at + 32 <= data@.len(),
            data@.len() == len,
            forall|j: int| 0 <= j < i ==> key@[j] == data@[at + j],
        decreases 32 - i,
    {
        key[i] = data[at + i];
        i = i + 1;
    }
    proof {
        assert(key@ =~= data@.subrange(at as int, at + 32));
    }
    key
}

/// The number that stands for a signed number of 64 bits: the number itself,
/// or `2^64` more where it is negative.
pub open spec fn signed_code(x: i64) -> nat {
    if x >= 0 {
        x as nat
    } else {
        (x + 0x1_0000_0000_0000_0000) as nat
    }
}

/// The signed number that a number of 64 bits stands for.
pub open spec fn signed_of(code: nat) -> int {
    if code < 0x8000_0000_0000_0000 {
        code as int
    } else {
        code - 0x1_0000_0000_0000_0000
    }
}

/// Appends the eight bytes of a signed number.
pub fn put_signed(out: &mut Vec<u8>, x: i64)
    ensures
        final(out)@ == old(out)@ + le_seq(signed_code(x), 8),
{
    let code: u64 = if x >= 0 {
        x as u64
    } else {
        ((x + i64::MAX + 1) as u64) + 0x8000_0000_0000_0000u64
    };
    put_number(out, code, 8)
}

/// Reads the eight bytes of a signed number.
pub fn get_signed(data: &[u8], at: usize) -> (x: i64)
    requires
        at + 8 <= data@.len(),
    ensures
        x == signed_of(le_at(data@, at as int, 8)),
{
    let code = read_u64(data, at);
    if code < 0x8000_0000_0000_0000u64 {
        code as i64
    } else {
        ((code - 0x8000_0000_0000_0000u64) as i64) - i64::MAX - 1
    }
}

/// The low and the high half of the number that stands for a quantity: the
/// quantity's raw integer, or `2^128` more where it is negative.
pub open spec fn quantity_code(v: i128) -> (nat, nat) {
    let code = if v >= 0 {
        v as int
    } else {
        v + 0x1_0000_0000_0000_0000_0000_0000_0000_0000
    };
    ((code % 0x1_0000_0000_0000_0000) as nat, (code / 0x1_0000_0000_0000_0000) as nat)
}

/// The raw integer of the quantity that two halves stand for.
pub open spec fn quantity_of(low: nat, high: nat) -> int {
    let code = low + high * 0x1_0000_0000_0000_0000;
    if code < 0x8000_0000_0000_0000_0000_0000_0000_0000 {
        code as int
    } else {
        code - 0x1_0000_0000_0000_0000_0000_0000_0000_0000
    }
}

/// The 16 bytes of a quantity.
pub open spec fn quantity_bytes(v: i128) -> Seq<u8> {
    le_seq(quantity_code(v).0, 8) + le_seq(quantity_code(v).1, 8)
}

/// A quantity has 16 bytes.
pub proof fn lemma_quantity_len(v: i128)
    ensures
        quantity_bytes(v).len() == 16,
{
    lemma_le_seq_len(quantity_code(v).0, 8);
    lemma_le_seq_len(quantity_code(v).1, 8);
}

/// Appends the 16 bytes of a quantity.
pub fn put_quantity(out: &mut Vec<u8>, q: &WrappedI80F48)
    ensures
        final(out)@ == old(out)@ + quantity_bytes(q.value),
{
    let v = q.value;
    let code: u128 = if v >= 0 {
        v as u128
    } else {
        ((v + i128::MAX + 1) as u128) + 0x8000_0000_0000_0000_0000_0000_0000_0000u128
    };
    let low = (code % 0x1_0000_0000_0000_0000u128) as u64;
    let high = (code / 0x1_0000_0000_0000_0000u128) as u64;
    let ghost before = out@;
    put_number(out, low, 8);
    put_number(out, high, 8);
    proof {
        assert(out@ =~= before + (le_seq(low as nat, 8) + le_seq(high as nat, 8)));
    }
}

/// Reads the 16 bytes of a quantity.
pub fn get_quantity(data: &[u8], at: usize) -> (q: WrappedI80F48)
    requires
        at + 16 <= data@.len(),
    ensures
        q.value == quantity_of(le_at(data@, at as int, 8), le_at(data@, at + 8, 8)),
{
    let len = data.len();
    let low = read_u64(data, at);
    let high = read_u64(data, at + 8);
    let code: u128 = (low as u128) + (high as u128) * 0x1_0000_0000_0000_0000u128;
    let value: i128 = if code < 0x8000_0000_0000_0000_0000_0000_0000_0000u128 {
        code as i128
    } else {
        ((code - 0x8000_0000_0000_0000_0000_0000_0000_0000u128) as i128) - i128::MAX - 1
    };
    WrappedI80F48::from_bits(value)
}

/// A signed number is read back from its eight bytes.
pub proof fn lemma_signed_read_back(s: Seq<u8>, at: int, x: i64)
    requires
        holds_at(s, at, le_seq(signed_code(x), 8)),
    ensures
        signed_of(le_at(s, at, 8)) == x,
{
    lemma_widths(signed_code(x));
    lemma_number_read_back(s, at, signed_code(x), 8);
}

/// A quantity is read back from its 16 bytes.
pub proof fn lemma_quantity_read_back(s: Seq<u8>, at: int, v: i128)
    requires
        holds_at(s, at, quantity_bytes(v)),
    ensures
        quantity_of(le_at(s, at, 8), le_at(s, at + 8, 8)) == v,
{
    let c = quantity_code(v);
    lemma_le_seq_len(c.0, 8);
    lemma_le_seq_len(c.1, 8);
    lemma_holds_both(s, at, le_seq(c.0, 8), le_seq(c.1, 8));
    lemma_widths(c.0);
    lemma_widths(c.1);
    lemma_number_read_back(s, at, c.0, 8);
    lemma_number_read_back(s, at + 8, c.1, 8);
}

} // verus!
