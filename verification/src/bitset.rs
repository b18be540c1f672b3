//! A growable bit vector stored in bytes, least significant bit first.

use crate::decimal::{is_digit, parse_usize, parsed_usize, MINUS, PLUS};
use crate::operands::{operand_views, stored_view};
use vstd::prelude::*;
use vstd::slice::{slice_subrange, slice_to_vec};

verus! {

/// The byte in which only bit `bit` is set; `bit` counts from the least
/// significant bit of the byte.
pub open spec fn bit_mask(bit: nat) -> u8
    recommends
        bit < 8,
{
    1u8 << (bit as u8)
}

/// Whether bit `pos` is set in `bits`. A position beyond the last byte is not set.
pub open spec fn bit_at(bits: Seq<u8>, pos: nat) -> bool {
    pos / 8 < bits.len() && bits[pos as int / 8] & bit_mask(pos % 8) != 0
}

/// `bits`, extended with zero bytes up to `len` bytes where it is shorter.
pub open spec fn zero_extended(bits: Seq<u8>, len: nat) -> Seq<u8> {
    if bits.len() >= len {
        bits
    } else {
        bits + Seq::new((len - bits.len()) as nat, |i: int| 0u8)
    }
}

/// `bits` after bit `pos` is set, grown with zero bytes as far as `pos` needs.
pub open spec fn with_bit_set(bits: Seq<u8>, pos: nat) -> Seq<u8> {
    let grown = zero_extended(bits, pos / 8 + 1);
    grown.update(pos as int / 8, grown[pos as int / 8] | bit_mask(pos % 8))
}

/// `bits` after bit `pos` is cleared; nothing changes where `pos` lies beyond the last byte.
pub open spec fn with_bit_cleared(bits: Seq<u8>, pos: nat) -> Seq<u8> {
    if pos / 8 < bits.len() {
        bits.update(pos as int / 8, bits[pos as int / 8] & !bit_mask(pos % 8))
    } else {
        bits
    }
}

proof fn lemma_mask_or(b: u8, i: u8, j: u8)
    requires
        i < 8,
        j < 8,
    ensures
        ((b | (1u8 << i)) & (1u8 << j) != 0) == (i == j || b & (1u8 << j) != 0),
{
    assert(i < 8 && j < 8 ==> (((b | (1u8 << i)) & (1u8 << j) != 0) == (i == j || b & (1u8 << j)
        != 0))) by (bit_vector);
}

proof fn lemma_mask_and_not(b: u8, i: u8, j: u8)
    requires
        i < 8,
        j < 8,
    ensures
        ((b & !(1u8 << i)) & (1u8 << j) != 0) == (i != j && b & (1u8 << j) != 0),
{
    assert(i < 8 && j < 8 ==> (((b & !(1u8 << i)) & (1u8 << j) != 0) == (i != j && b & (1u8 << j)
        != 0))) by (bit_vector);
}

proof fn lemma_zero_has_no_bit(j: u8)
    requires
        j < 8,
    ensures
        0u8 & (1u8 << j) == 0,
{
    assert(0u8 & (1u8 << j) == 0) by (bit_vector);
}

/// Setting a bit sets that bit and no other, and the vector becomes exactly
/// as long as the position needs, never shorter than it was.
pub proof fn lemma_set_bit_sets_one_bit(bits: Seq<u8>, pos: nat, other: nat)
    ensures
        bit_at(with_bit_set(bits, pos), other) == (other == pos || bit_at(bits, other)),
        with_bit_set(bits, pos).len() == if bits.len() > pos / 8 {
            bits.len()
        } else {
            pos / 8 + 1
        },
{
    let grown = zero_extended(bits, pos / 8 + 1);
    let after = with_bit_set(bits, pos);
    let i = (pos % 8) as u8;
    let j = (other % 8) as u8;
    if other / 8 < after.len() {
        let before: u8 = grown[other as int / 8];
        if other / 8 >= bits.len() {
            lemma_zero_has_no_bit(j);
            assert(before == 0u8);
        }
        if other / 8 == pos / 8 {
            lemma_mask_or(before, i, j);
        }
    }
}

/// Clearing a bit clears that bit and no other, and keeps the length.
pub proof fn lemma_clear_bit_clears_one_bit(bits: Seq<u8>, pos: nat, other: nat)
    ensures
        bit_at(with_bit_cleared(bits, pos), other) == (other != pos && bit_at(bits, other)),
        with_bit_cleared(bits, pos).len() == bits.len(),
{
    let i = (pos % 8) as u8;
    let j = (other % 8) as u8;
    if other / 8 < bits.len() && other / 8 == pos / 8 {
        lemma_mask_and_not(bits[other as int / 8], i, j);
    }
}

/// Sets bit `pos`, growing the vector with zero bytes where `pos` lies beyond its end.
pub fn set_bit(bitset: &mut Vec<u8>, pos: usize)
    ensures
        final(bitset)@ == with_bit_set(old(bitset)@, pos as nat),
{
    let byte_index = pos / 8;
    let bit_index = pos % 8;
    if byte_index >= bitset.len() {
        bitset.resize(byte_index + 1, 0u8);
        assert(bitset@ =~= zero_extended(old(bitset)@, (byte_index + 1) as nat));
    }
    let current = bitset[byte_index];
    bitset.set(byte_index, current | (1u8 << bit_index));
}

/// Clears bit `pos`; a position beyond the end of the vector changes nothing.
pub fn clear_bit(bitset: &mut Vec<u8>, pos: usize)
    ensures
        final(bitset)@ == with_bit_cleared(old(bitset)@, pos as nat),
{
    let byte_index = pos / 8;
    let bit_index = pos % 8;
    if byte_index < bitset.len() {
        let current = bitset[byte_index];
        bitset.set(byte_index, current & !(1u8 << bit_index));
    }
}

/// What an operand asks of the bit vector.
#[derive(Debug, Clone, Copy, PartialEq, Eq)]
pub enum Directive {
    /// Drop every byte.
    Truncate,
    /// Set the bit at a position.
    SetBit(usize),
    /// Clear the bit at a position.
    ClearBit(usize),
    /// Do nothing.
    Ignore,
}

/// The number of bytes that the blank character at `at` takes, and zero where
/// no blank character stands there. The blank characters are those that
/// Unicode gives the property White_Space, in UTF-8.
pub open spec fn blank_len(text: Seq<u8>, at: int) -> int {
    if 0 <= at < text.len() {
        let first = text[at];
        if 9 <= first <= 13 || first == 32 {
            1
        } else if at + 1 < text.len() && first == 0xc2 && (text[at + 1] == 0x85 || text[at + 1]
            == 0xa0) {
            2
        } else if at + 2 < text.len() && ((first == 0xe1 && text[at + 1] == 0x9a && text[at + 2]
            == 0x80) || (first == 0xe2 && text[at + 1] == 0x80 && (0x80 <= text[at + 2] <= 0x8a
            || text[at + 2] == 0xa8 || text[at + 2] == 0xa9 || text[at + 2] == 0xaf)) || (first
            == 0xe2 && text[at + 1] == 0x81 && text[at + 2] == 0x9f) || (first == 0xe3 && text[at
            + 1] == 0x80 && text[at + 2] == 0x80)) {
            3
        } else {
            0
        }
    } else {
        0
    }
}

/// The first place from `at` on where no blank character stands.
pub open spec fn blanks_end(text: Seq<u8>, at: int) -> int
    decreases text.len() - at,
{
    if blank_len(text, at) > 0 {
        blanks_end(text, at + blank_len(text, at))
    } else {
        at
    }
}

/// The first place from `at` on where no digit stands.
pub open spec fn digits_end(text: Seq<u8>, at: int) -> int
    decreases text.len() - at,
{
    if 0 <= at < text.len() && is_digit(text[at]) {
        digits_end(text, at + 1)
    } else {
        at
    }
}

/// What a text asks of the bit vector, blank characters at its ends aside:
/// nothing at all asks to drop every byte; a plus sign and a position ask to
/// set that bit; a minus sign and a position ask to clear it; and any other
/// text asks nothing. A position is a natural number that a `usize` holds.
pub open spec fn directive_of(text: Seq<u8>) -> Directive {
    let start = blanks_end(text, 0);
    if start >= text.len() {
        Directive::Truncate
    } else if text[start] == PLUS || text[start] == MINUS {
        let digits = if start + 1 < text.len() && text[start + 1] == PLUS {
            start + 2
        } else {
            start + 1
        };
        let end = digits_end(text, digits);
        if blanks_end(text, end) >= text.len() {
            match parsed_usize(text.subrange(start + 1, end)) {
                Some(position) => if text[start] == PLUS {
                    Directive::SetBit(position)
                } else {
                    Directive::ClearBit(position)
                },
                None => Directive::Ignore,
            }
        } else {
            Directive::Ignore
        }
    } else {
        Directive::Ignore
    }
}

/// The bit vector after one directive.
pub open spec fn directed(bits: Seq<u8>, directive: Directive) -> Seq<u8> {
    match directive {
        Directive::Truncate => Seq::empty(),
        Directive::SetBit(position) => with_bit_set(bits, position as nat),
        Directive::ClearBit(position) => with_bit_cleared(bits, position as nat),
        Directive::Ignore => bits,
    }
}

/// The bit vector after the operands, each taken as a directive, in order.
pub open spec fn bitset_after(bits: Seq<u8>, operands: Seq<Seq<u8>>) -> Seq<u8>
    decreases operands.len(),
{
    if operands.len() == 0 {
        bits
    } else {
        directed(bitset_after(bits, operands.drop_last()), directive_of(operands.last()))
    }
}

/// The value that the bit vector merge leaves: the stored bytes, or no bytes
/// where nothing is stored, after the operands.
pub open spec fn bitset_value(stored: Option<Seq<u8>>, operands: Seq<Seq<u8>>) -> Seq<u8> {
    bitset_after(
        match stored {
            Some(bytes) => bytes,
            None => Seq::empty(),
        },
        operands,
    )
}

/// Merging may go in steps: the bit vector that a merge leaves, stored and
/// merged with further operands, is the bit vector that one merge of all
/// operands leaves.
pub proof fn lemma_bitset_merges_in_steps(
    stored: Option<Seq<u8>>,
    a: Seq<Seq<u8>>,
    b: Seq<Seq<u8>>,
)
    ensures
        bitset_value(Some(bitset_value(stored, a)), b) == bitset_value(stored, a + b),
    decreases b.len(),
{
    if b.len() == 0 {
        assert(a + b =~= a);
    } else {
        lemma_bitset_merges_in_steps(stored, a, b.drop_last());
        assert((a + b).drop_last() =~= a + b.drop_last());
        assert((a + b).last() == b.last());
    }
}

fn blank_len_at(text: &[u8], at: usize) -> (r: usize)
    requires
        at <= text.len(),
    ensures
        r == blank_len(text@, at as int),
        at + r <= text.len(),
{
    if at >= text.len() {
        return 0;
    }
    let left = text.len() - at;
    let first = text[at];
    if (9 <= first && first <= 13) || first == 32 {
        1
    } else if left > 1 && first == 0xc2 && (text[at + 1] == 0x85 || text[at + 1] == 0xa0) {
        2
    } else if left > 2 && ((first == 0xe1 && text[at + 1] == 0x9a && text[at + 2] == 0x80) || (
    first == 0xe2 && text[at + 1] == 0x80 && ((0x80 <= text[at + 2] && text[at + 2] <= 0x8a)
        || text[at + 2] == 0xa8 || text[at + 2] == 0xa9 || text[at + 2] == 0xaf)) || (first
        == 0xe2 && text[at + 1] == 0x81 && text[at + 2] == 0x9f) || (first == 0xe3 && text[at + 1]
        == 0x80 && text[at + 2] == 0x80)) {
        3
    } else {
        0
    }
}

fn blanks_end_at(text: &[u8], at: usize) -> (r: usize)
    requires
        at <= text.len(),
    ensures
        r == blanks_end(text@, at as int),
        at <= r <= text.len(),
{
    let mut place = at;
    loop
        invariant
            at <= place <= text.len(),
            blanks_end(text@, at as int) == blanks_end(text@, place as int),
        decreases text.len() - place,
    {
        let n = blank_len_at(text, place);
        if n == 0 {
            return place;
        }
        place = place + n;
    }
}

fn digits_end_at(text: &[u8], at: usize) -> (r: usize)
    requires
        at <= text.len(),
    ensures
        r == digits_end(text@, at as int),
        at <= r <= text.len(),
{
    let mut place = at;
    while place < text.len() && 48 <= text[place] && text[place] <= 57
        invariant
            at <= place <= text.len(),
            digits_end(text@, at as int) == digits_end(text@, place as int),
        decreases text.len() - place,
    {
        place = place + 1;
    }
    place
}

/// Reads an operand as a directive.
pub fn parse_directive(text: &[u8]) -> (r: Directive)
    ensures
        r == directive_of(text@),
{
    let start = blanks_end_at(text, 0);
    if start >= text.len() {
        return Directive::Truncate;
    }
    let sign = text[start];
    if sign != PLUS && sign != MINUS {
        return Directive::Ignore;
    }
    let digits = if text.len() - start > 1 && text[start + 1] == PLUS {
        start + 2
    } else {
        start + 1
    };
    let end = digits_end_at(text, digits);
    if blanks_end_at(text, end) < text.len() {
        return Directive::Ignore;
    }
    match parse_usize(slice_subrange(text, start + 1, end)) {
        Some(position) => if sign == PLUS {
            Directive::SetBit(position)
        } else {
            Directive::ClearBit(position)
        },
        None => Directive::Ignore,
    }
}

/// Merges a bit vector: the stored bytes, or no bytes where nothing is
/// stored, are edited by the operands, each read as a directive, in order.
///
/// The merge never fails: it always leaves a value, which may be empty.
pub fn bitset_merge(_key: &[u8], existing_val: Option<&[u8]>, operands: &[Vec<u8>]) -> (r: Option<
    Vec<u8>,
>)
    ensures
        r matches Some(merged) && merged@ == bitset_value(
            stored_view(existing_val),
            operand_views(operands@),
        ),
{
    let mut bitset: Vec<u8> = match existing_val {
        Some(val) => slice_to_vec(val),
        None => Vec::new(),
    };
    let ghost start = bitset@;
    let ghost all = operand_views(operands@);
    assert(all.subrange(0, 0) =~= Seq::<Seq<u8>>::empty());
    let mut i: usize = 0;
    while i < operands.len()
        invariant
            i <= operands.len(),
            all == operand_views(operands@),
            bitset@ == bitset_after(start, all.subrange(0, i as int)),
        decreases operands.len() - i,
    {
        let ghost done = all.subrange(0, i as int);
        let ghost next = all.subrange(0, i + 1);
        proof {
            assert(next.drop_last() =~= done);
            assert(next.last() == operands@[i as int]@);
        }
        match parse_directive(operands[i].as_slice()) {
            Directive::Truncate => {
                bitset.clear();
            },
            Directive::SetBit(position) => {
                set_bit(&mut bitset, position);
            },
            Directive::ClearBit(position) => {
                clear_bit(&mut bitset, position);
            },
            Directive::Ignore => {},
        }
        i += 1;
    }
    assert(all.subrange(0, i as int) =~= all);
    Some(bitset)
}

} // verus!
