//! The frame of a term on the wire.
//!
//! A term on the wire is a version byte and then the term: a tag byte, a
//! header whose layout the tag fixes, and the terms that it holds, each laid
//! out in the same way. This module follows that layout to find where a term
//! ends, without reading what the term says. Bytes pass only if they hold a
//! whole term, laid out in one of the known ways and nested no deeper than
//! [`MAX_NESTING`]; the codec is handed no other bytes, because on some of
//! them it stops the program instead of reporting an error: on a tag that it
//! knows and does not read, on a bit string whose last byte has no sound count
//! of bits, on a count of elements far beyond what the bytes hold, and on
//! nesting deeper than the stack holds. A compressed term is unpacked before
//! it comes here.

use vstd::prelude::*;

verus! {

/// The version byte that starts a term on the wire.
pub const VERSION: u8 = 131;

/// The tag of a compressed term. It stands only right behind the version byte.
pub const COMPRESSED: u8 = 80;

/// The stack that the nesting of a term may take, in bytes: half of the two
/// mebibytes that the standard library gives a thread that it starts. The
/// other half is left to the caller.
pub const NESTING_STACK: usize = 0x10_0000;

/// The stack that one level of nesting takes at most, in bytes. A term is
/// read, converted, compared, written and dropped by recursion as deep as it
/// is nested; a thousand levels go through all of that on two mebibytes.
pub const STACK_PER_LEVEL: usize = 0x800;

/// How deep terms may hold terms: as deep as the stack for nesting allows.
pub const MAX_NESTING: usize = NESTING_STACK / STACK_PER_LEVEL;

/// The tag of a floating-point number as eight bytes.
pub const NEW_FLOAT: u8 = 70;

/// The tag of a bit string.
pub const BIT_BINARY: u8 = 77;

/// The tag of an integer in one byte.
pub const SMALL_INTEGER: u8 = 97;

/// The tag of an integer in four bytes.
pub const INTEGER: u8 = 98;

/// The tag of a floating-point number as text.
pub const FLOAT: u8 = 99;

/// The tag of an atom with a length in two bytes.
pub const ATOM: u8 = 100;

/// The tag of a reference with one word.
pub const REFERENCE: u8 = 101;

/// The tag of a port.
pub const PORT: u8 = 102;

/// The tag of a process identifier.
pub const PID: u8 = 103;

/// The tag of a tuple with a count in one byte.
pub const SMALL_TUPLE: u8 = 104;

/// The tag of a tuple with a count in four bytes.
pub const LARGE_TUPLE: u8 = 105;

/// The tag of the empty list.
pub const NIL: u8 = 106;

/// The tag of a list of bytes.
pub const STRING: u8 = 107;

/// The tag of a list with its tail.
pub const LIST: u8 = 108;

/// The tag of a binary.
pub const BINARY: u8 = 109;

/// The tag of an integer of any size with a length in one byte.
pub const SMALL_BIG: u8 = 110;

/// The tag of an integer of any size with a length in four bytes.
pub const LARGE_BIG: u8 = 111;

/// The tag of a closure in the newer representation.
pub const NEW_FUN: u8 = 112;

/// The tag of the name of an exported function.
pub const EXPORT: u8 = 113;

/// The tag of a reference with a count of words.
pub const NEW_REFERENCE: u8 = 114;

/// The tag of an atom with a length in one byte.
pub const SMALL_ATOM: u8 = 115;

/// The tag of key and value pairs.
pub const MAPPING: u8 = 116;

/// The tag of a closure in the older representation.
pub const FUN: u8 = 117;

/// The tag of an atom in UTF-8 with a length in two bytes.
pub const ATOM_UTF8: u8 = 118;

/// The tag of an atom in UTF-8 with a length in one byte.
pub const SMALL_ATOM_UTF8: u8 = 119;

/// The number that two bytes at `at` spell, most significant byte first.
pub open spec fn be_u16(bytes: Seq<u8>, at: int) -> int
    recommends
        0 <= at,
        at + 2 <= bytes.len(),
{
    bytes[at] * 0x100 + bytes[at + 1]
}

/// The number that four bytes at `at` spell, most significant byte first.
pub open spec fn be_u32(bytes: Seq<u8>, at: int) -> int
    recommends
        0 <= at,
        at + 4 <= bytes.len(),
{
    bytes[at] * 0x100_0000 + bytes[at + 1] * 0x1_0000 + bytes[at + 2] * 0x100 + bytes[at + 3]
}

/// The place `count` bytes behind `at`, if the bytes reach that far.
pub open spec fn skip(bytes: Seq<u8>, at: int, count: int) -> Option<int> {
    if 0 <= at && 0 <= count && at + count <= bytes.len() {
        Some(at + count)
    } else {
        None
    }
}

/// The end of a payload at `at` whose length stands before it in one byte.
pub open spec fn sized8_end(bytes: Seq<u8>, at: int) -> Option<int> {
    if 0 <= at && at + 1 <= bytes.len() {
        skip(bytes, at + 1, bytes[at] as int)
    } else {
        None
    }
}

/// The end of a payload at `at` whose length stands before it in two bytes.
pub open spec fn sized16_end(bytes: Seq<u8>, at: int) -> Option<int> {
    if 0 <= at && at + 2 <= bytes.len() {
        skip(bytes, at + 2, be_u16(bytes, at))
    } else {
        None
    }
}

/// The end of a payload at `at` whose length stands before it in four bytes.
pub open spec fn sized32_end(bytes: Seq<u8>, at: int) -> Option<int> {
    if 0 <= at && at + 4 <= bytes.len() {
        skip(bytes, at + 4, be_u32(bytes, at))
    } else {
        None
    }
}

/// The end of the atom at `at`, if an atom stands there.
pub open spec fn atom_end(bytes: Seq<u8>, at: int) -> Option<int> {
    if 0 <= at < bytes.len() {
        let tag = bytes[at];
        if tag == ATOM || tag == ATOM_UTF8 {
            sized16_end(bytes, at + 1)
        } else if tag == SMALL_ATOM || tag == SMALL_ATOM_UTF8 {
            sized8_end(bytes, at + 1)
        } else {
            None
        }
    } else {
        None
    }
}

/// The end of the bounded integer at `at`, if one stands there.
pub open spec fn integer_end(bytes: Seq<u8>, at: int) -> Option<int> {
    if 0 <= at < bytes.len() {
        let tag = bytes[at];
        if tag == SMALL_INTEGER {
            skip(bytes, at + 1, 1)
        } else if tag == INTEGER {
            skip(bytes, at + 1, 4)
        } else {
            None
        }
    } else {
        None
    }
}

/// The end of an atom at `at` and `count` bytes behind it.
pub open spec fn atom_and_bytes_end(bytes: Seq<u8>, at: int, count: int) -> Option<int> {
    match atom_end(bytes, at) {
        Some(next) => skip(bytes, next, count),
        None => None,
    }
}

/// The end of the process identifier at `at`, if one stands there.
pub open spec fn pid_end(bytes: Seq<u8>, at: int) -> Option<int> {
    if 0 <= at < bytes.len() && bytes[at] == PID {
        atom_and_bytes_end(bytes, at + 1, 9)
    } else {
        None
    }
}

/// The end of a module atom, two bounded integers and a process identifier,
/// in the order that `pid_first` gives: the header of a closure.
pub open spec fn fun_header_end(bytes: Seq<u8>, at: int, pid_first: bool) -> Option<int> {
    if pid_first {
        match pid_end(bytes, at) {
            Some(a) => match atom_end(bytes, a) {
                Some(b) => match integer_end(bytes, b) {
                    Some(c) => integer_end(bytes, c),
                    None => None,
                },
                None => None,
            },
            None => None,
        }
    } else {
        match atom_end(bytes, at) {
            Some(a) => match integer_end(bytes, a) {
                Some(b) => match integer_end(bytes, b) {
                    Some(c) => pid_end(bytes, c),
                    None => None,
                },
                None => None,
            },
            None => None,
        }
    }
}

/// The end of the term at `at` where that term holds no terms, if such a term
/// stands there whole.
pub open spec fn leaf_end(bytes: Seq<u8>, at: int) -> Option<int> {
    if 0 <= at < bytes.len() {
        let tag = bytes[at];
        let next = at + 1;
        if tag == SMALL_INTEGER {
            skip(bytes, next, 1)
        } else if tag == INTEGER {
            skip(bytes, next, 4)
        } else if tag == NEW_FLOAT {
            skip(bytes, next, 8)
        } else if tag == FLOAT {
            skip(bytes, next, 31)
        } else if tag == ATOM || tag == ATOM_UTF8 || tag == STRING {
            sized16_end(bytes, next)
        } else if tag == SMALL_ATOM || tag == SMALL_ATOM_UTF8 {
            sized8_end(bytes, next)
        } else if tag == NIL {
            Some(next)
        } else if tag == BINARY {
            sized32_end(bytes, next)
        } else if tag == BIT_BINARY {
            if next + 5 <= bytes.len() && (be_u32(bytes, next) == 0 || 1 <= bytes[next + 4] <= 8) {
                skip(bytes, next + 5, be_u32(bytes, next))
            } else {
                None
            }
        } else if tag == SMALL_BIG {
            if next + 2 <= bytes.len() {
                skip(bytes, next + 2, bytes[next] as int)
            } else {
                None
            }
        } else if tag == LARGE_BIG {
            if next + 5 <= bytes.len() {
                skip(bytes, next + 5, be_u32(bytes, next))
            } else {
                None
            }
        } else if tag == PID {
            atom_and_bytes_end(bytes, next, 9)
        } else if tag == PORT || tag == REFERENCE {
            atom_and_bytes_end(bytes, next, 5)
        } else if tag == NEW_REFERENCE {
            if next + 2 <= bytes.len() {
                atom_and_bytes_end(bytes, next + 2, 1 + 4 * be_u16(bytes, next))
            } else {
                None
            }
        } else if tag == EXPORT {
            match atom_end(bytes, next) {
                Some(a) => match atom_end(bytes, a) {
                    Some(b) => integer_end(bytes, b),
                    None => None,
                },
                None => None,
            }
        } else {
            None
        }
    } else {
        None
    }
}

/// Where the terms that the term at `at` holds begin, and how many they are,
/// if a term that holds terms stands there with its header whole.
pub open spec fn held_terms(bytes: Seq<u8>, at: int) -> Option<(int, int)> {
    if 0 <= at < bytes.len() {
        let tag = bytes[at];
        let next = at + 1;
        if tag == SMALL_TUPLE {
            if next + 1 <= bytes.len() {
                Some((next + 1, bytes[next] as int))
            } else {
                None
            }
        } else if tag == LARGE_TUPLE {
            if next + 4 <= bytes.len() {
                Some((next + 4, be_u32(bytes, next)))
            } else {
                None
            }
        } else if tag == LIST {
            if next + 4 <= bytes.len() {
                Some((next + 4, be_u32(bytes, next) + 1))
            } else {
                None
            }
        } else if tag == MAPPING {
            if next + 4 <= bytes.len() {
                Some((next + 4, 2 * be_u32(bytes, next)))
            } else {
                None
            }
        } else if tag == FUN {
            if next + 4 <= bytes.len() {
                match fun_header_end(bytes, next + 4, true) {
                    Some(start) => Some((start, be_u32(bytes, next))),
                    None => None,
                }
            } else {
                None
            }
        } else if tag == NEW_FUN {
            if next + 29 <= bytes.len() {
                match fun_header_end(bytes, next + 29, false) {
                    Some(start) => Some((start, be_u32(bytes, next + 25))),
                    None => None,
                }
            } else {
                None
            }
        } else {
            None
        }
    } else {
        None
    }
}

/// The end of the term at `at`, if a whole term stands there that is nested
/// no deeper than `depth`.
pub open spec fn term_end(bytes: Seq<u8>, at: int, depth: nat) -> Option<int>
    decreases depth, 0nat,
{
    match held_terms(bytes, at) {
        Some((start, count)) => if depth > 0 && count >= 0 {
            terms_end(bytes, start, count as nat, (depth - 1) as nat)
        } else {
            None
        },
        None => leaf_end(bytes, at),
    }
}

/// The end of `count` terms that stand one behind the other from `at` on.
pub open spec fn terms_end(bytes: Seq<u8>, at: int, count: nat, depth: nat) -> Option<int>
    decreases depth, count + 1,
{
    if count == 0 {
        Some(at)
    } else {
        match term_end(bytes, at, depth) {
            Some(next) => terms_end(bytes, next, (count - 1) as nat, depth),
            None => None,
        }
    }
}

/// Whether the bytes start with the version byte and a whole term behind it.
pub open spec fn well_framed(bytes: Seq<u8>) -> bool {
    bytes.len() >= 1 && bytes[0] == VERSION && term_end(bytes, 1, MAX_NESTING as nat) is Some
}

/// Whether an end that was computed is the end that the layout gives, and
/// lies within the bytes.
pub open spec fn is_end(bytes: Seq<u8>, found: Option<usize>, end: Option<int>) -> bool {
    match found {
        Some(e) => end == Some(e as int) && e <= bytes.len(),
        None => end is None,
    }
}

fn read_u16(bytes: &[u8], at: usize) -> (r: u64)
    requires
        at + 2 <= bytes.len(),
    ensures
        r == be_u16(bytes@, at as int),
{
    (bytes[at] as u64) * 0x100 + (bytes[at + 1] as u64)
}

fn read_u32(bytes: &[u8], at: usize) -> (r: u64)
    requires
        at + 4 <= bytes.len(),
    ensures
        r == be_u32(bytes@, at as int),
        r <= 0xffff_ffff,
{
    (bytes[at] as u64) * 0x100_0000 + (bytes[at + 1] as u64) * 0x1_0000 + (bytes[at + 2] as u64)
        * 0x100 + (bytes[at + 3] as u64)
}

fn skip_from(bytes: &[u8], at: usize, count: u64) -> (r: Option<usize>)
    requires
        at <= bytes.len(),
    ensures
        is_end(bytes@, r, skip(bytes@, at as int, count as int)),
{
    let left = bytes.len() - at;
    if count <= left as u64 {
        Some(at + count as usize)
    } else {
        None
    }
}

fn sized8_end_at(bytes: &[u8], at: usize) -> (r: Option<usize>)
    requires
        at <= bytes.len(),
    ensures
        is_end(bytes@, r, sized8_end(bytes@, at as int)),
{
    if bytes.len() - at >= 1 {
        skip_from(bytes, at + 1, bytes[at] as u64)
    } else {
        None
    }
}

fn sized16_end_at(bytes: &[u8], at: usize) -> (r: Option<usize>)
    requires
        at <= bytes.len(),
    ensures
        is_end(bytes@, r, sized16_end(bytes@, at as int)),
{
    if bytes.len() - at >= 2 {
        skip_from(bytes, at + 2, read_u16(bytes, at))
    } else {
        None
    }
}

fn sized32_end_at(bytes: &[u8], at: usize) -> (r: Option<usize>)
    requires
        at <= bytes.len(),
    ensures
        is_end(bytes@, r, sized32_end(bytes@, at as int)),
{
    if bytes.len() - at >= 4 {
        skip_from(bytes, at + 4, read_u32(bytes, at))
    } else {
        None
    }
}

fn atom_end_at(bytes: &[u8], at: usize) -> (r: Option<usize>)
    requires
        at <= bytes.len(),
    ensures
        is_end(bytes@, r, atom_end(bytes@, at as int)),
{
    if at < bytes.len() {
        let tag = bytes[at];
        if tag == ATOM || tag == ATOM_UTF8 {
            sized16_end_at(bytes, at + 1)
        } else if tag == SMALL_ATOM || tag == SMALL_ATOM_UTF8 {
            sized8_end_at(bytes, at + 1)
        } else {
            None
        }
    } else {
        None
    }
}

fn integer_end_at(bytes: &[u8], at: usize) -> (r: Option<usize>)
    requires
        at <= bytes.len(),
    ensures
        is_end(bytes@, r, integer_end(bytes@, at as int)),
{
    if at < bytes.len() {
        let tag = bytes[at];
        if tag == SMALL_INTEGER {
            skip_from(bytes, at + 1, 1)
        } else if tag == INTEGER {
            skip_from(bytes, at + 1, 4)
        } else {
            None
        }
    } else {
        None
    }
}

fn atom_and_bytes_end_at(bytes: &[u8], at: usize, count: u64) -> (r: Option<usize>)
    requires
        at <= bytes.len(),
    ensures
        is_end(bytes@, r, atom_and_bytes_end(bytes@, at as int, count as int)),
{
    match atom_end_at(bytes, at) {
        Some(next) => skip_from(bytes, next, count),
        None => None,
    }
}

fn pid_end_at(bytes: &[u8], at: usize) -> (r: Option<usize>)
    requires
        at <= bytes.len(),
    ensures
        is_end(bytes@, r, pid_end(bytes@, at as int)),
{
    if at < bytes.len() && bytes[at] == PID {
        atom_and_bytes_end_at(bytes, at + 1, 9)
    } else {
        None
    }
}

fn fun_header_end_at(bytes: &[u8], at: usize, pid_first: bool) -> (r: Option<usize>)
    requires
        at <= bytes.len(),
    ensures
        is_end(bytes@, r, fun_header_end(bytes@, at as int, pid_first)),
{
    if pid_first {
        match pid_end_at(bytes, at) {
            Some(a) => match atom_end_at(bytes, a) {
                Some(b) => match integer_end_at(bytes, b) {
                    Some(c) => integer_end_at(bytes, c),
                    None => None,
                },
                None => None,
            },
            None => None,
        }
    } else {
        match atom_end_at(bytes, at) {
            Some(a) => match integer_end_at(bytes, a) {
                Some(b) => match integer_end_at(bytes, b) {
                    Some(c) => pid_end_at(bytes, c),
                    None => None,
                },
                None => None,
            },
            None => None,
        }
    }
}

fn leaf_end_at(bytes: &[u8], at: usize) -> (r: Option<usize>)
    requires
        at <= bytes.len(),
    ensures
        is_end(bytes@, r, leaf_end(bytes@, at as int)),
{
    if at >= bytes.len() {
        return None;
    }
    let tag = bytes[at];
    let next = at + 1;
    let left = bytes.len() - next;
    if tag == SMALL_INTEGER {
        skip_from(bytes, next, 1)
    } else if tag == INTEGER {
        skip_from(bytes, next, 4)
    } else if tag == NEW_FLOAT {
        skip_from(bytes, next, 8)
    } else if tag == FLOAT {
        skip_from(bytes, next, 31)
    } else if tag == ATOM || tag == ATOM_UTF8 || tag == STRING {
        sized16_end_at(bytes, next)
    } else if tag == SMALL_ATOM || tag == SMALL_ATOM_UTF8 {
        sized8_end_at(bytes, next)
    } else if tag == NIL {
        Some(next)
    } else if tag == BINARY {
        sized32_end_at(bytes, next)
    } else if tag == BIT_BINARY {
        if left >= 5 {
            let size = read_u32(bytes, next);
            let tail_bits = bytes[next + 4];
            if size == 0 || (1 <= tail_bits && tail_bits <= 8) {
                skip_from(bytes, next + 5, size)
            } else {
                None
            }
        } else {
            None
        }
    } else if tag == SMALL_BIG {
        if left >= 2 {
            skip_from(bytes, next + 2, bytes[next] as u64)
        } else {
            None
        }
    } else if tag == LARGE_BIG {
        if left >= 5 {
            skip_from(bytes, next + 5, read_u32(bytes, next))
        } else {
            None
        }
    } else if tag == PID {
        atom_and_bytes_end_at(bytes, next, 9)
    } else if tag == PORT || tag == REFERENCE {
        atom_and_bytes_end_at(bytes, next, 5)
    } else if tag == NEW_REFERENCE {
        if left >= 2 {
            atom_and_bytes_end_at(bytes, next + 2, 1 + 4 * read_u16(bytes, next))
        } else {
            None
        }
    } else if tag == EXPORT {
        match atom_end_at(bytes, next) {
            Some(a) => match atom_end_at(bytes, a) {
                Some(b) => integer_end_at(bytes, b),
                None => None,
            },
            None => None,
        }
    } else {
        None
    }
}

fn held_terms_at(bytes: &[u8], at: usize) -> (r: Option<(usize, u64)>)
    requires
        at <= bytes.len(),
    ensures
        match r {
            Some((start, count)) => held_terms(bytes@, at as int) == Some(
                (start as int, count as int),
            ) && start <= bytes.len(),
            None => held_terms(bytes@, at as int) is None,
        },
{
    if at >= bytes.len() {
        return None;
    }
    let tag = bytes[at];
    let next = at + 1;
    let left = bytes.len() - next;
    if tag == SMALL_TUPLE {
        if left >= 1 {
            Some((next + 1, bytes[next] as u64))
        } else {
            None
        }
    } else if tag == LARGE_TUPLE {
        if left >= 4 {
            Some((next + 4, read_u32(bytes, next)))
        } else {
            None
        }
    } else if tag == LIST {
        if left >= 4 {
            Some((next + 4, read_u32(bytes, next) + 1))
        } else {
            None
        }
    } else if tag == MAPPING {
        if left >= 4 {
            Some((next + 4, 2 * read_u32(bytes, next)))
        } else {
            None
        }
    } else if tag == FUN {
        if left >= 4 {
            match fun_header_end_at(bytes, next + 4, true) {
                Some(start) => Some((start, read_u32(bytes, next))),
                None => None,
            }
        } else {
            None
        }
    } else if tag == NEW_FUN {
        if left >= 29 {
            match fun_header_end_at(bytes, next + 29, false) {
                Some(start) => Some((start, read_u32(bytes, next + 25))),
                None => None,
            }
        } else {
            None
        }
    } else {
        None
    }
}

fn term_end_at(bytes: &[u8], at: usize, depth: usize) -> (r: Option<usize>)
    requires
        at <= bytes.len(),
    ensures
        is_end(bytes@, r, term_end(bytes@, at as int, depth as nat)),
    decreases depth, 0nat,
{
    match held_terms_at(bytes, at) {
        Some((start, count)) => if depth > 0 {
            terms_end_at(bytes, start, count, depth - 1)
        } else {
            None
        },
        None => leaf_end_at(bytes, at),
    }
}

fn terms_end_at(bytes: &[u8], at: usize, count: u64, depth: usize) -> (r: Option<usize>)
    requires
        at <= bytes.len(),
    ensures
        is_end(bytes@, r, terms_end(bytes@, at as int, count as nat, depth as nat)),
    decreases depth, 1nat,
{
    let mut place = at;
    let mut left = count;
    while left > 0
        invariant
            place <= bytes.len(),
            terms_end(bytes@, at as int, count as nat, depth as nat) == terms_end(
                bytes@,
                place as int,
                left as nat,
                depth as nat,
            ),
        decreases left,
    {
        match term_end_at(bytes, place, depth) {
            Some(next) => {
                place = next;
                left = left - 1;
            },
            None => {
                return None;
            },
        }
    }
    Some(place)
}

/// Whether the bytes start with the version byte and a whole term behind it.
pub fn is_well_framed(bytes: &[u8]) -> (r: bool)
    ensures
        r == well_framed(bytes@),
{
    if bytes.len() >= 1 && bytes[0] == VERSION {
        term_end_at(bytes, 1, MAX_NESTING).is_some()
    } else {
        false
    }
}

} // verus!
