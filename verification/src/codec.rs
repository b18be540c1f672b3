//! Terms to and from their wire form.
//!
//! The wire form is that of the `eetf` crate, which does the decoding and the
//! encoding. A compressed term is unpacked first, by the `libflate` crate,
//! and the codec is handed the plain bytes. What the two crates return is not
//! proved here: it is named, and the contracts of this library speak of it by
//! those names.

use crate::frame::{is_well_framed, well_framed, COMPRESSED, VERSION};
use crate::term::{
    entry_views, lemma_view_of_children, option_view, term_views, ErlangTerm, ProcessId, TermView,
};
use eetf::InternalFun as WireFun;
use eetf::Term as WireTerm;
use std::io::Read;
use vstd::prelude::*;
use vstd::slice::slice_subrange;

verus! {

/// The term that the codec reads from bytes, if it reads one. It is defined
/// by the codec and stated nowhere in this library.
pub uninterp spec fn decoded_term(bytes: Seq<u8>) -> Option<TermView>;

/// The bytes that the codec writes for a term, if it writes any. They are
/// defined by the codec and stated nowhere in this library.
pub uninterp spec fn encoded_term(term: TermView) -> Option<Seq<u8>>;

/// The bytes that the unpacker yields from a compressed stream, up to its end
/// or to the first error that it reports: all of them where the stream is
/// sound, and none where it cannot be begun. They are defined by the unpacker
/// and stated nowhere in this library.
pub uninterp spec fn unpacked(stream: Seq<u8>) -> Seq<u8>;

/// The bytes that stand for a term plainly: the bytes themselves where they
/// are not compressed, and the version byte with the unpacked stream behind
/// it where they are. A compressed term is the version byte, the tag, four
/// bytes that give a length, and the stream; with less, it is none.
pub open spec fn plain_form(bytes: Seq<u8>) -> Option<Seq<u8>> {
    if bytes.len() >= 2 && bytes[0] == VERSION && bytes[1] == COMPRESSED {
        if bytes.len() >= 6 {
            Some(seq![VERSION] + unpacked(bytes.subrange(6, bytes.len() as int)))
        } else {
            None
        }
    } else {
        Some(bytes)
    }
}

/// The value of bytes that may be absent.
pub open spec fn bytes_option_view(bytes: Option<Vec<u8>>) -> Option<Seq<u8>> {
    match bytes {
        Some(bytes) => Some(bytes@),
        None => None,
    }
}

/// Whether every bit string in a term has a sound count of bits in its last
/// byte: one to eight where it has bytes. Only such a term can be encoded.
pub open spec fn well_formed(t: TermView) -> bool
    decreases t,
{
    match t {
        TermView::BitBinary { bytes, tail_bits_size } => bytes.len() == 0 || 1 <= tail_bits_size
            <= 8,
        TermView::OldFun { free_vars, .. } => forall|k: int|
            0 <= k < free_vars.len() ==> well_formed(#[trigger] free_vars[k]),
        TermView::NewFun { free_vars, .. } => forall|k: int|
            0 <= k < free_vars.len() ==> well_formed(#[trigger] free_vars[k]),
        TermView::List(elements) => forall|k: int|
            0 <= k < elements.len() ==> well_formed(#[trigger] elements[k]),
        TermView::ImproperList { elements, last } => (forall|k: int|
            0 <= k < elements.len() ==> well_formed(#[trigger] elements[k])) && well_formed(*last),
        TermView::Tuple(elements) => forall|k: int|
            0 <= k < elements.len() ==> well_formed(#[trigger] elements[k]),
        TermView::Mapping(entries) => forall|k: int|
            0 <= k < entries.len() ==> well_formed((#[trigger] entries[k]).0) && well_formed(
                entries[k].1,
            ),
        _ => true,
    }
}

/// The term that bytes hold: what the codec reads from their plain form
/// where that is well framed, and none where it is not.
pub open spec fn term_of(bytes: Seq<u8>) -> Option<TermView> {
    match plain_form(bytes) {
        Some(plain) => if well_framed(plain) {
            decoded_term(plain)
        } else {
            None
        },
        None => None,
    }
}

/// The bytes that stand for a term: what the codec writes for it where it is
/// well formed, and none where it is not.
pub open spec fn bytes_of(term: TermView) -> Option<Seq<u8>> {
    if well_formed(term) {
        encoded_term(term)
    } else {
        None
    }
}

/// Whether a term is well formed.
pub fn is_well_formed(t: &ErlangTerm) -> (r: bool)
    ensures
        r == well_formed(t@),
    decreases t,
{
    proof {
        lemma_view_of_children(*t);
    }
    match t {
        ErlangTerm::BitBinary { bytes, tail_bits_size } => bytes.len() == 0 || (1
            <= *tail_bits_size && *tail_bits_size <= 8),
        ErlangTerm::OldFun { free_vars, .. } => all_well_formed(free_vars),
        ErlangTerm::NewFun { free_vars, .. } => all_well_formed(free_vars),
        ErlangTerm::List(elements) => {
            assert(t@->List_0 == term_views(elements@));
            all_well_formed(elements)
        },
        ErlangTerm::ImproperList { elements, last } => {
            assert(t@->ImproperList_elements == term_views(elements@));
            all_well_formed(elements) && is_well_formed(last)
        },
        ErlangTerm::Tuple(elements) => {
            assert(t@->Tuple_0 == term_views(elements@));
            all_well_formed(elements)
        },
        ErlangTerm::Mapping(entries) => {
            assert(t@->Mapping_0 == entry_views(entries@));
            entries_well_formed(entries)
        },
        _ => true,
    }
}

fn all_well_formed(terms: &Vec<ErlangTerm>) -> (r: bool)
    ensures
        r == forall|k: int| 0 <= k < terms@.len() ==> well_formed(#[trigger] term_views(terms@)[k]),
    decreases terms,
{
    let mut i: usize = 0;
    while i < terms.len()
        invariant
            i <= terms.len(),
            forall|k: int| 0 <= k < i ==> well_formed(#[trigger] term_views(terms@)[k]),
        decreases terms.len() - i,
    {
        if !is_well_formed(&terms[i]) {
            assert(!well_formed(term_views(terms@)[i as int]));
            return false;
        }
        i += 1;
    }
    true
}

fn entries_well_formed(entries: &Vec<(ErlangTerm, ErlangTerm)>) -> (r: bool)
    ensures
        r == forall|k: int|
            0 <= k < entries@.len() ==> well_formed((#[trigger] entry_views(entries@)[k]).0)
                && well_formed(entry_views(entries@)[k].1),
    decreases entries,
{
    let mut i: usize = 0;
    while i < entries.len()
        invariant
            i <= entries.len(),
            forall|k: int|
                0 <= k < i ==> well_formed((#[trigger] entry_views(entries@)[k]).0) && well_formed(
                    entry_views(entries@)[k].1,
                ),
        decreases entries.len() - i,
    {
        if !is_well_formed(&entries[i].0) || !is_well_formed(&entries[i].1) {
            assert(!(well_formed(entry_views(entries@)[i as int].0) && well_formed(
                entry_views(entries@)[i as int].1,
            )));
            return false;
        }
        i += 1;
    }
    true
}

/// A term of the `eetf` crate: no more is known of it here than that it is one.
#[verifier::external_type_specification]
#[verifier::external_body]
pub struct ExWireTerm(eetf::Term);

/// A process identifier of the `eetf` crate.
#[verifier::external_type_specification]
#[verifier::external_body]
pub struct ExWirePid(eetf::Pid);

/// Turns a term of the `eetf` crate into a term of this library, kind by kind
/// and field by field. This part of the conversion holds the kinds that the
/// merge reads and those that hold terms.
#[verifier::external_body]
fn lift(t: WireTerm) -> ErlangTerm {
    match t {
        WireTerm::Atom(x) => ErlangTerm::Atom(x.name),
        WireTerm::FixInteger(x) => ErlangTerm::Integer(x.value),
        WireTerm::Binary(x) => ErlangTerm::Binary(x.bytes),
        WireTerm::List(x) => ErlangTerm::List(lift_all(x.elements)),
        WireTerm::Tuple(x) => ErlangTerm::Tuple(lift_all(x.elements)),
        WireTerm::ImproperList(x) => {
            ErlangTerm::ImproperList { elements: lift_all(x.elements), last: Box::new(lift(*x.last)) }
        },
        WireTerm::Map(x) => {
            ErlangTerm::Mapping(x.entries.into_iter().map(|(k, v)| (lift(k), lift(v))).collect())
        },
        other => lift_leaf(other),
    }
}

/// Turns terms of the `eetf` crate into terms of this library, one by one and in order.
#[verifier::external_body]
fn lift_all(terms: Vec<WireTerm>) -> Vec<ErlangTerm> {
    terms.into_iter().map(lift).collect()
}

/// Turns a term of the `eetf` crate that holds no terms into a term of this
/// library, field by field. A number of any size is kept as the bytes that
/// `BigInt::to_signed_bytes_le` gives, a floating-point number as the bits
/// that `to_bits` gives.
#[verifier::external_body]
fn lift_leaf(t: WireTerm) -> ErlangTerm {
    match t {
        WireTerm::BigInteger(x) => ErlangTerm::BigInteger(x.value.to_signed_bytes_le()),
        WireTerm::Float(x) => ErlangTerm::Float(x.value.to_bits()),
        WireTerm::Pid(x) => ErlangTerm::Pid(lift_pid(x)),
        WireTerm::Port(x) => ErlangTerm::Port { node: x.node.name, id: x.id, creation: x.creation },
        WireTerm::Reference(x) => {
            ErlangTerm::Reference { node: x.node.name, id: x.id, creation: x.creation }
        },
        WireTerm::BitBinary(x) => {
            ErlangTerm::BitBinary { bytes: x.bytes, tail_bits_size: x.tail_bits_size }
        },
        other => lift_fun(other),
    }
}

/// Turns a closure or the name of an exported function of the `eetf` crate
/// into a term of this library, field by field. Every other kind of term is
/// handed to [`lift`], which holds it.
#[verifier::external_body]
fn lift_fun(t: WireTerm) -> ErlangTerm {
    match t {
        WireTerm::ExternalFun(x) => {
            ErlangTerm::ExternalFun { module: x.module.name, function: x.function.name, arity: x.arity }
        },
        WireTerm::InternalFun(WireFun::Old { module, pid, free_vars, index, uniq }) => {
            let (module, pid, free_vars) = (module.name, lift_pid(pid), lift_all(free_vars));
            ErlangTerm::OldFun { module, pid, free_vars, index, uniq }
        },
        WireTerm::InternalFun(WireFun::New { module, arity, pid, free_vars, index, uniq, old_index, old_uniq }) => {
            let (module, pid, free_vars) = (module.name, lift_pid(pid), lift_all(free_vars));
            ErlangTerm::NewFun { module, arity, pid, free_vars, index, uniq, old_index, old_uniq }
        },
        other => lift(other),
    }
}

/// Turns a process identifier of the `eetf` crate into one of this library,
/// field by field.
#[verifier::external_body]
fn lift_pid(x: eetf::Pid) -> ProcessId {
    ProcessId { node: x.node.name, id: x.id, serial: x.serial, creation: x.creation }
}

/// Turns a process identifier of this library into one of the `eetf` crate,
/// field by field.
#[verifier::external_body]
fn lower_pid(x: ProcessId) -> eetf::Pid {
    eetf::Pid { node: eetf::Atom { name: x.node }, id: x.id, serial: x.serial, creation: x.creation }
}

/// Turns a term of this library into a term of the `eetf` crate, kind by kind
/// and field by field. This part of the conversion holds the kinds that the
/// merge reads and those that hold terms.
#[verifier::external_body]
fn lower(t: ErlangTerm) -> WireTerm {
    match t {
        ErlangTerm::Atom(name) => WireTerm::Atom(eetf::Atom { name }),
        ErlangTerm::Integer(value) => WireTerm::FixInteger(eetf::FixInteger { value }),
        ErlangTerm::Binary(bytes) => WireTerm::Binary(eetf::Binary { bytes }),
        ErlangTerm::List(x) => WireTerm::List(eetf::List { elements: lower_all(x) }),
        ErlangTerm::Tuple(x) => WireTerm::Tuple(eetf::Tuple { elements: lower_all(x) }),
        ErlangTerm::Mapping(x) => {
            let entries = x.into_iter().map(|(k, v)| (lower(k), lower(v))).collect();
            WireTerm::Map(eetf::Map { entries })
        },
        other => lower_leaf(other),
    }
}

/// Turns terms of this library into terms of the `eetf` crate, one by one and in order.
#[verifier::external_body]
fn lower_all(terms: Vec<ErlangTerm>) -> Vec<WireTerm> {
    terms.into_iter().map(lower).collect()
}

/// Turns a number, a process identifier or a port of this library into a
/// term of the `eetf` crate, field by field. A number of any size is read back
/// with `BigInt::from_signed_bytes_le`, a floating-point number from its bits,
/// most significant byte first, with `FromBytes::from_be_bytes` of `num_traits`.
#[verifier::external_body]
fn lower_leaf(t: ErlangTerm) -> WireTerm {
    match t {
        ErlangTerm::BigInteger(x) => {
            let value = num_bigint::BigInt::from_signed_bytes_le(&x);
            WireTerm::BigInteger(eetf::BigInteger { value })
        },
        ErlangTerm::Float(x) => {
            let value = num_traits::FromBytes::from_be_bytes(&x.to_be_bytes());
            WireTerm::Float(eetf::Float { value })
        },
        ErlangTerm::Pid(x) => WireTerm::Pid(lower_pid(x)),
        ErlangTerm::Port { node, id, creation } => {
            WireTerm::Port(eetf::Port { node: eetf::Atom { name: node }, id, creation })
        },
        other => lower_rest(other),
    }
}

/// Turns a reference, a bit string, a list with a tail or the name of an
/// exported function of this library into a term of the `eetf` crate, field by
/// field.
#[verifier::external_body]
fn lower_rest(t: ErlangTerm) -> WireTerm {
    match t {
        ErlangTerm::Reference { node, id, creation } => {
            WireTerm::from(eetf::Reference { node: eetf::Atom { name: node }, id, creation })
        },
        ErlangTerm::BitBinary { bytes, tail_bits_size } => WireTerm::from(eetf::BitBinary { bytes, tail_bits_size }),
        ErlangTerm::ImproperList { elements, last } => {
            WireTerm::from(eetf::ImproperList::from((lower_all(elements), lower(*last))))
        },
        ErlangTerm::ExternalFun { module, function, arity } => {
            let (module, function) = (eetf::Atom { name: module }, eetf::Atom { name: function });
            WireTerm::from(eetf::ExternalFun { module, function, arity })
        },
        other => lower_fun(other),
    }
}

/// Turns a closure of this library into a term of the `eetf` crate, field by
/// field. Every other kind of term is handed to [`lower`], which holds it.
#[verifier::external_body]
fn lower_fun(t: ErlangTerm) -> WireTerm {
    match t {
        ErlangTerm::OldFun { module, pid, free_vars, index, uniq } => {
            let (module, pid, free_vars) = (eetf::Atom { name: module }, lower_pid(pid), lower_all(free_vars));
            WireTerm::from(WireFun::Old { module, pid, free_vars, index, uniq })
        },
        ErlangTerm::NewFun { module, arity, pid, free_vars, index, uniq, old_index, old_uniq } => {
            let (module, pid, free_vars) = (eetf::Atom { name: module }, lower_pid(pid), lower_all(free_vars));
            WireTerm::from(WireFun::New { module, arity, pid, free_vars, index, uniq, old_index, old_uniq })
        },
        other => lower(other),
    }
}

/// Calls `eetf::Term::decode` on the bytes and hands back the term that it
/// read, converted, or none where it reported an error. The term is the one
/// that [`decoded_term`] names. The call is made on well framed bytes only:
/// on other bytes the decoder may stop the program rather than report.
#[verifier::external_body]
fn decode_framed(bytes: &[u8]) -> (r: Option<ErlangTerm>)
    requires
        well_framed(bytes@),
    ensures
        option_view(r) == decoded_term(bytes@),
{
    WireTerm::decode(bytes).ok().map(lift)
}

/// Calls `eetf::Term::encode` on the term, converted, and hands back the
/// bytes that it wrote, or none where it reported an error. The bytes are
/// those that [`encoded_term`] names. The call is made on well formed terms
/// only: on others the encoder may stop the program rather than report.
#[verifier::external_body]
fn encode_well_formed(term: ErlangTerm) -> (r: Option<Vec<u8>>)
    requires
        well_formed(term@),
    ensures
        bytes_option_view(r) == encoded_term(term@),
{
    let mut buffer = Vec::new();
    match lower(term).encode(&mut buffer) {
        Ok(()) => Some(buffer),
        Err(_) => None,
    }
}

/// Calls `libflate::non_blocking::zlib::Decoder::new` on the stream and
/// `read_to_end` on the decoder, and hands back the bytes that were read
/// before the stream ended or an error was reported; the error is dropped.
/// The bytes are those that [`unpacked`] names. This decoder goes through the
/// blocks of a stream in a loop, and so takes no more stack for a long stream
/// than for a short one. The decoder that `eetf` calls by itself goes through
/// them by recursion; it yields the same bytes, but for a stored block that
/// is cut short, of which it yields none.
#[verifier::external_body]
fn unpack(stream: &[u8]) -> (r: Vec<u8>)
    ensures
        r@ == unpacked(stream@),
{
    let mut plain = Vec::new();
    let _ = libflate::non_blocking::zlib::Decoder::new(stream).read_to_end(&mut plain);
    plain
}

/// Reads a term from its wire form, unpacking it first where it is
/// compressed. Bytes whose plain form is not well framed, and bytes that the
/// codec does not take, hold no term.
pub fn decode_term(bytes: &[u8]) -> (r: Option<ErlangTerm>)
    ensures
        option_view(r) == term_of(bytes@),
{
    if bytes.len() >= 2 && bytes[0] == VERSION && bytes[1] == COMPRESSED {
        if bytes.len() < 6 {
            return None;
        }
        let mut plain: Vec<u8> = Vec::new();
        plain.push(VERSION);
        let mut stream = unpack(slice_subrange(bytes, 6, bytes.len()));
        plain.append(&mut stream);
        assert(plain@ =~= seq![VERSION] + unpacked(bytes@.subrange(6, bytes@.len() as int)));
        if is_well_framed(plain.as_slice()) {
            decode_framed(plain.as_slice())
        } else {
            None
        }
    } else if is_well_framed(bytes) {
        decode_framed(bytes)
    } else {
        None
    }
}

/// Writes a term in its wire form. A term that is not well formed, and a term
/// that the codec does not take, has no wire form.
pub fn encode_term(term: ErlangTerm) -> (r: Option<Vec<u8>>)
    ensures
        bytes_option_view(r) == bytes_of(term@),
{
    if is_well_formed(&term) {
        encode_well_formed(term)
    } else {
        None
    }
}

} // verus!

