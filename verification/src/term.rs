//! Structured terms as plain values.
//!
//! A term is a self-describing tagged value. The merge operators read
//! integers, atoms, tuples, lists and binaries; every other kind of term is
//! carried through untouched, so the type holds all of them.

use vstd::prelude::*;
use vstd::slice::{slice_subrange, slice_to_vec};

verus! {

/// A process identifier.
#[derive(Debug, Clone, PartialEq, Eq)]
pub struct ProcessId {
    pub node: String,
    pub id: u32,
    pub serial: u32,
    pub creation: u8,
}

/// The mathematical value of a [`ProcessId`].
pub struct ProcessIdView {
    pub node: Seq<char>,
    pub id: u32,
    pub serial: u32,
    pub creation: u8,
}

impl View for ProcessId {
    type V = ProcessIdView;

    open spec fn view(&self) -> ProcessIdView {
        ProcessIdView { node: self.node@, id: self.id, serial: self.serial, creation: self.creation }
    }
}

/// A structured term.
///
/// The derived `==` compares representations. [`term_eq`] is the equality of
/// the terms themselves, which differs on floating-point numbers and on
/// integers of any size that are not written in their shortest bytes.
#[derive(Debug, PartialEq, Eq)]
pub enum ErlangTerm {
    /// A name.
    Atom(String),
    /// A bounded integer.
    Integer(i32),
    /// An integer of any size, as bytes in two's complement, least significant
    /// first. More than one run of bytes spells the same integer.
    BigInteger(Vec<u8>),
    /// A floating-point number, as the bits of its IEEE 754 double.
    Float(u64),
    Pid(ProcessId),
    Port { node: String, id: u32, creation: u8 },
    Reference { node: String, id: Vec<u32>, creation: u8 },
    ExternalFun { module: String, function: String, arity: u8 },
    /// A closure in the older of its two representations.
    OldFun { module: String, pid: ProcessId, free_vars: Vec<ErlangTerm>, index: i32, uniq: i32 },
    /// A closure in the newer of its two representations.
    NewFun {
        module: String,
        arity: u8,
        pid: ProcessId,
        free_vars: Vec<ErlangTerm>,
        index: u32,
        uniq: [u8; 16],
        old_index: i32,
        old_uniq: i32,
    },
    /// A byte sequence.
    Binary(Vec<u8>),
    /// A bit string: whole bytes, of which the last holds `tail_bits_size` bits.
    BitBinary { bytes: Vec<u8>, tail_bits_size: u8 },
    /// An ordered sequence of terms.
    List(Vec<ErlangTerm>),
    /// A list whose tail is a term other than the empty list.
    ImproperList { elements: Vec<ErlangTerm>, last: Box<ErlangTerm> },
    /// A fixed ordered sequence of terms.
    Tuple(Vec<ErlangTerm>),
    /// Key and value pairs, in the order in which they were written.
    Mapping(Vec<(ErlangTerm, ErlangTerm)>),
}

/// The mathematical value of a [`ErlangTerm`].
#[allow(inconsistent_fields)]
pub enum TermView {
    Atom(Seq<char>),
    Integer(i32),
    BigInteger(Seq<u8>),
    Float(u64),
    Pid(ProcessIdView),
    Port { node: Seq<char>, id: u32, creation: u8 },
    Reference { node: Seq<char>, id: Seq<u32>, creation: u8 },
    ExternalFun { module: Seq<char>, function: Seq<char>, arity: u8 },
    OldFun { module: Seq<char>, pid: ProcessIdView, free_vars: Seq<TermView>, index: i32, uniq: i32 },
    NewFun {
        module: Seq<char>,
        arity: u8,
        pid: ProcessIdView,
        free_vars: Seq<TermView>,
        index: u32,
        uniq: Seq<u8>,
        old_index: i32,
        old_uniq: i32,
    },
    Binary(Seq<u8>),
    BitBinary { bytes: Seq<u8>, tail_bits_size: u8 },
    List(Seq<TermView>),
    ImproperList { elements: Seq<TermView>, last: Box<TermView> },
    Tuple(Seq<TermView>),
    Mapping(Seq<(TermView, TermView)>),
}

/// The mathematical value of a term.
pub open spec fn term_view(t: ErlangTerm) -> TermView
    decreases t,
{
    match t {
        ErlangTerm::Atom(name) => TermView::Atom(name@),
        ErlangTerm::Integer(value) => TermView::Integer(value),
        ErlangTerm::BigInteger(bytes) => TermView::BigInteger(bytes@),
        ErlangTerm::Float(bits) => TermView::Float(bits),
        ErlangTerm::Pid(pid) => TermView::Pid(pid@),
        ErlangTerm::Port { node, id, creation } => TermView::Port {
            node: node@,
            id: id,
            creation: creation,
        },
        ErlangTerm::Reference { node, id, creation } => TermView::Reference {
            node: node@,
            id: id@,
            creation: creation,
        },
        ErlangTerm::ExternalFun { module, function, arity } => TermView::ExternalFun {
            module: module@,
            function: function@,
            arity: arity,
        },
        ErlangTerm::OldFun { module, pid, free_vars, index, uniq } => TermView::OldFun {
            module: module@,
            pid: pid@,
            free_vars: Seq::new(
                free_vars@.len(),
                |i: int|
                    if 0 <= i < free_vars@.len() {
                        term_view(free_vars@[i])
                    } else {
                        arbitrary()
                    },
            ),
            index: index,
            uniq: uniq,
        },
        ErlangTerm::NewFun {
            module,
            arity,
            pid,
            free_vars,
            index,
            uniq,
            old_index,
            old_uniq,
        } => TermView::NewFun {
            module: module@,
            arity: arity,
            pid: pid@,
            free_vars: Seq::new(
                free_vars@.len(),
                |i: int|
                    if 0 <= i < free_vars@.len() {
                        term_view(free_vars@[i])
                    } else {
                        arbitrary()
                    },
            ),
            index: index,
            uniq: uniq@,
            old_index: old_index,
            old_uniq: old_uniq,
        },
        ErlangTerm::Binary(bytes) => TermView::Binary(bytes@),
        ErlangTerm::BitBinary { bytes, tail_bits_size } => TermView::BitBinary {
            bytes: bytes@,
            tail_bits_size: tail_bits_size,
        },
        ErlangTerm::List(elements) => TermView::List(
            Seq::new(
                elements@.len(),
                |i: int|
                    if 0 <= i < elements@.len() {
                        term_view(elements@[i])
                    } else {
                        arbitrary()
                    },
            ),
        ),
        ErlangTerm::ImproperList { elements, last } => TermView::ImproperList {
            elements: Seq::new(
                elements@.len(),
                |i: int|
                    if 0 <= i < elements@.len() {
                        term_view(elements@[i])
                    } else {
                        arbitrary()
                    },
            ),
            last: Box::new(term_view(*last)),
        },
        ErlangTerm::Tuple(elements) => TermView::Tuple(
            Seq::new(
                elements@.len(),
                |i: int|
                    if 0 <= i < elements@.len() {
                        term_view(elements@[i])
                    } else {
                        arbitrary()
                    },
            ),
        ),
        ErlangTerm::Mapping(entries) => TermView::Mapping(
            Seq::new(
                entries@.len(),
                |i: int|
                    if 0 <= i < entries@.len() {
                        (term_view(entries@[i].0), term_view(entries@[i].1))
                    } else {
                        arbitrary()
                    },
            ),
        ),
    }
}

impl View for ErlangTerm {
    type V = TermView;

    open spec fn view(&self) -> TermView {
        term_view(*self)
    }
}

/// The value of a term that may be absent.
pub open spec fn option_view(t: Option<ErlangTerm>) -> Option<TermView> {
    match t {
        Some(t) => Some(t@),
        None => None,
    }
}

/// The values of a sequence of terms, in order.
pub open spec fn term_views(terms: Seq<ErlangTerm>) -> Seq<TermView> {
    terms.map_values(|t: ErlangTerm| t@)
}

/// The values of a sequence of key and value pairs, in order.
pub open spec fn entry_views(entries: Seq<(ErlangTerm, ErlangTerm)>) -> Seq<(TermView, TermView)> {
    entries.map_values(|e: (ErlangTerm, ErlangTerm)| (e.0@, e.1@))
}

/// The value of a term that holds terms is made of the values of those terms.
pub proof fn lemma_view_of_children(t: ErlangTerm)
    ensures
        t matches ErlangTerm::List(elements) ==> t@ == TermView::List(term_views(elements@)),
        t matches ErlangTerm::Tuple(elements) ==> t@ == TermView::Tuple(term_views(elements@)),
        t matches ErlangTerm::Mapping(entries) ==> t@ == TermView::Mapping(entry_views(entries@)),
        t matches ErlangTerm::ImproperList { elements, last } ==> t@ == (TermView::ImproperList {
            elements: term_views(elements@),
            last: Box::new((*last)@),
        }),
        t matches ErlangTerm::OldFun { free_vars, .. } ==> t@ is OldFun && t@->OldFun_free_vars
            == term_views(free_vars@),
        t matches ErlangTerm::NewFun { free_vars, .. } ==> t@ is NewFun && t@->NewFun_free_vars
            == term_views(free_vars@),
{
    match t {
        ErlangTerm::List(elements) => {
            assert(t@->List_0 =~= term_views(elements@));
        },
        ErlangTerm::Tuple(elements) => {
            assert(t@->Tuple_0 =~= term_views(elements@));
        },
        ErlangTerm::Mapping(entries) => {
            assert(t@->Mapping_0 =~= entry_views(entries@));
        },
        ErlangTerm::ImproperList { elements, last } => {
            assert(t@->ImproperList_elements =~= term_views(elements@));
        },
        ErlangTerm::OldFun { free_vars, .. } => {
            assert(t@->OldFun_free_vars =~= term_views(free_vars@));
        },
        ErlangTerm::NewFun { free_vars, .. } => {
            assert(t@->NewFun_free_vars =~= term_views(free_vars@));
        },
        _ => {},
    }
}

/// Whether the bits of a double encode a value that is not a number.
pub open spec fn float_is_nan(bits: u64) -> bool {
    bits & 0x7fff_ffff_ffff_ffff > 0x7ff0_0000_0000_0000
}

/// Whether the bits of a double encode zero, of either sign.
pub open spec fn float_is_zero(bits: u64) -> bool {
    bits & 0x7fff_ffff_ffff_ffff == 0
}

/// Equality of two doubles given by their bits: a value that is not a number
/// equals nothing, the two zeros equal each other, and every other value
/// equals only itself.
pub open spec fn same_float(a: u64, b: u64) -> bool {
    !float_is_nan(a) && !float_is_nan(b) && (a == b || (float_is_zero(a) && float_is_zero(b)))
}

/// Whether the last byte of a number in two's complement adds nothing to it:
/// it only repeats the sign that the byte before it has.
pub open spec fn ends_in_padding(bytes: Seq<u8>) -> bool {
    bytes.len() >= 2 && ((bytes[bytes.len() - 1] == 0 && bytes[bytes.len() - 2] < 0x80) || (
    bytes[bytes.len() - 1] == 0xff && bytes[bytes.len() - 2] >= 0x80))
}

/// The shortest bytes that spell the number that `bytes` spell in two's
/// complement, least significant byte first. No bytes spell zero, as one zero
/// byte does.
pub open spec fn minimal_bytes(bytes: Seq<u8>) -> Seq<u8>
    decreases bytes.len(),
{
    if bytes.len() == 0 {
        seq![0u8]
    } else if ends_in_padding(bytes) {
        minimal_bytes(bytes.drop_last())
    } else {
        bytes
    }
}

/// Equality of terms: the same kind of term, with equal parts throughout.
/// It is the equality of the values but on floating-point numbers, which
/// compare as [`same_float`] says, and on integers of any size, which are
/// equal where their shortest bytes are.
pub open spec fn same_term(a: TermView, b: TermView) -> bool
    decreases a,
{
    match (a, b) {
        (TermView::Float(x), TermView::Float(y)) => same_float(x, y),
        (TermView::BigInteger(x), TermView::BigInteger(y)) => minimal_bytes(x) == minimal_bytes(y),
        (
            TermView::OldFun { module: m1, pid: p1, free_vars: f1, index: i1, uniq: u1 },
            TermView::OldFun { module: m2, pid: p2, free_vars: f2, index: i2, uniq: u2 },
        ) => m1 == m2 && p1 == p2 && i1 == i2 && u1 == u2 && f1.len() == f2.len() && forall|
            k: int,
        | 0 <= k < f1.len() ==> same_term(#[trigger] f1[k], f2[k]),
        (
            TermView::NewFun {
                module: m1,
                arity: a1,
                pid: p1,
                free_vars: f1,
                index: i1,
                uniq: u1,
                old_index: oi1,
                old_uniq: ou1,
            },
            TermView::NewFun {
                module: m2,
                arity: a2,
                pid: p2,
                free_vars: f2,
                index: i2,
                uniq: u2,
                old_index: oi2,
                old_uniq: ou2,
            },
        ) => m1 == m2 && a1 == a2 && p1 == p2 && i1 == i2 && u1 == u2 && oi1 == oi2 && ou1 == ou2
            && f1.len() == f2.len() && forall|k: int|
            0 <= k < f1.len() ==> same_term(#[trigger] f1[k], f2[k]),
        (TermView::List(x), TermView::List(y)) => x.len() == y.len() && forall|k: int|
            0 <= k < x.len() ==> same_term(#[trigger] x[k], y[k]),
        (
            TermView::ImproperList { elements: x, last: p },
            TermView::ImproperList { elements: y, last: q },
        ) => x.len() == y.len() && (forall|k: int|
            0 <= k < x.len() ==> same_term(#[trigger] x[k], y[k])) && same_term(*p, *q),
        (TermView::Tuple(x), TermView::Tuple(y)) => x.len() == y.len() && forall|k: int|
            0 <= k < x.len() ==> same_term(#[trigger] x[k], y[k]),
        (TermView::Mapping(x), TermView::Mapping(y)) => x.len() == y.len() && forall|k: int|
            0 <= k < x.len() ==> same_term((#[trigger] x[k]).0, y[k].0) && same_term(
                x[k].1,
                y[k].1,
            ),
        (TermView::Atom(_), _) => a == b,
        (TermView::Integer(_), _) => a == b,
        (TermView::Pid(_), _) => a == b,
        (TermView::Port { .. }, _) => a == b,
        (TermView::Reference { .. }, _) => a == b,
        (TermView::ExternalFun { .. }, _) => a == b,
        (TermView::Binary(_), _) => a == b,
        (TermView::BitBinary { .. }, _) => a == b,
        _ => false,
    }
}

/// Equality of two sequences of terms: the same length, and equal terms at each place.
pub open spec fn same_terms(a: Seq<TermView>, b: Seq<TermView>) -> bool {
    a.len() == b.len() && forall|k: int| 0 <= k < a.len() ==> same_term(#[trigger] a[k], b[k])
}

/// Whether `t` equals some term of `terms`.
pub open spec fn occurs_in(t: TermView, terms: Seq<TermView>) -> bool {
    exists|k: int| 0 <= k < terms.len() && same_term(t, #[trigger] terms[k])
}

/// Whether two byte strings hold the same bytes.
pub fn bytes_eq(a: &[u8], b: &[u8]) -> (r: bool)
    ensures
        r == (a@ == b@),
{
    if a.len() != b.len() {
        return false;
    }
    let mut i: usize = 0;
    while i < a.len()
        invariant
            i <= a.len(),
            a.len() == b.len(),
            forall|k: int| 0 <= k < i ==> a@[k] == b@[k],
        decreases a.len() - i,
    {
        if a[i] != b[i] {
            return false;
        }
        i += 1;
    }
    assert(a@ =~= b@);
    true
}

fn words_eq(a: &Vec<u32>, b: &Vec<u32>) -> (r: bool)
    ensures
        r == (a@ == b@),
{
    if a.len() != b.len() {
        return false;
    }
    let mut i: usize = 0;
    while i < a.len()
        invariant
            i <= a.len(),
            a.len() == b.len(),
            forall|k: int| 0 <= k < i ==> a@[k] == b@[k],
        decreases a.len() - i,
    {
        if a[i] != b[i] {
            return false;
        }
        i += 1;
    }
    assert(a@ =~= b@);
    true
}

fn pid_eq(a: &ProcessId, b: &ProcessId) -> (r: bool)
    ensures
        r == (a@ == b@),
{
    a.node == b.node && a.id == b.id && a.serial == b.serial && a.creation == b.creation
}

/// Whether two doubles, given by their bits, are equal as numbers.
pub fn float_eq(a: u64, b: u64) -> (r: bool)
    ensures
        r == same_float(a, b),
{
    let magnitude_a = a & 0x7fff_ffff_ffff_ffff;
    let magnitude_b = b & 0x7fff_ffff_ffff_ffff;
    magnitude_a <= 0x7ff0_0000_0000_0000 && magnitude_b <= 0x7ff0_0000_0000_0000 && (a == b || (
    magnitude_a == 0 && magnitude_b == 0))
}

/// The shortest bytes that spell the number that `bytes` spell.
pub fn shortest(bytes: &[u8]) -> (r: Vec<u8>)
    ensures
        r@ == minimal_bytes(bytes@),
{
    if bytes.len() == 0 {
        let mut zero: Vec<u8> = Vec::new();
        zero.push(0u8);
        assert(zero@ =~= seq![0u8]);
        return zero;
    }
    let mut len = bytes.len();
    assert(bytes@.subrange(0, len as int) =~= bytes@);
    while len >= 2 && ((bytes[len - 1] == 0 && bytes[len - 2] < 0x80) || (bytes[len - 1] == 0xff
        && bytes[len - 2] >= 0x80))
        invariant
            1 <= len <= bytes.len(),
            minimal_bytes(bytes@) == minimal_bytes(bytes@.subrange(0, len as int)),
        decreases len,
    {
        assert(bytes@.subrange(0, len as int).drop_last() =~= bytes@.subrange(0, len - 1));
        len = len - 1;
    }
    assert(!ends_in_padding(bytes@.subrange(0, len as int)));
    slice_to_vec(slice_subrange(bytes, 0, len))
}

/// Whether two terms are equal.
pub fn term_eq(a: &ErlangTerm, b: &ErlangTerm) -> (r: bool)
    ensures
        r == same_term(a@, b@),
    decreases a,
{
    proof {
        lemma_view_of_children(*a);
        lemma_view_of_children(*b);
    }
    match (a, b) {
        (ErlangTerm::Atom(x), ErlangTerm::Atom(y)) => *x == *y,
        (ErlangTerm::Integer(x), ErlangTerm::Integer(y)) => *x == *y,
        (ErlangTerm::BigInteger(x), ErlangTerm::BigInteger(y)) => {
            let shortest_x = shortest(x.as_slice());
            let shortest_y = shortest(y.as_slice());
            bytes_eq(shortest_x.as_slice(), shortest_y.as_slice())
        },
        (ErlangTerm::Float(x), ErlangTerm::Float(y)) => float_eq(*x, *y),
        (ErlangTerm::Pid(x), ErlangTerm::Pid(y)) => pid_eq(x, y),
        (
            ErlangTerm::Port { node: n1, id: i1, creation: c1 },
            ErlangTerm::Port { node: n2, id: i2, creation: c2 },
        ) => *n1 == *n2 && *i1 == *i2 && *c1 == *c2,
        (
            ErlangTerm::Reference { node: n1, id: i1, creation: c1 },
            ErlangTerm::Reference { node: n2, id: i2, creation: c2 },
        ) => *n1 == *n2 && words_eq(i1, i2) && *c1 == *c2,
        (
            ErlangTerm::ExternalFun { module: m1, function: f1, arity: a1 },
            ErlangTerm::ExternalFun { module: m2, function: f2, arity: a2 },
        ) => *m1 == *m2 && *f1 == *f2 && *a1 == *a2,
        (
            ErlangTerm::OldFun { module: m1, pid: p1, free_vars: f1, index: i1, uniq: u1 },
            ErlangTerm::OldFun { module: m2, pid: p2, free_vars: f2, index: i2, uniq: u2 },
        ) => *m1 == *m2 && pid_eq(p1, p2) && *i1 == *i2 && *u1 == *u2 && terms_eq(f1, f2),
        (
            ErlangTerm::NewFun {
                module: m1,
                arity: a1,
                pid: p1,
                free_vars: f1,
                index: i1,
                uniq: u1,
                old_index: oi1,
                old_uniq: ou1,
            },
            ErlangTerm::NewFun {
                module: m2,
                arity: a2,
                pid: p2,
                free_vars: f2,
                index: i2,
                uniq: u2,
                old_index: oi2,
                old_uniq: ou2,
            },
        ) => *m1 == *m2 && *a1 == *a2 && pid_eq(p1, p2) && *i1 == *i2 && bytes_eq(
            u1.as_slice(),
            u2.as_slice(),
        ) && *oi1 == *oi2 && *ou1 == *ou2 && terms_eq(f1, f2),
        (ErlangTerm::Binary(x), ErlangTerm::Binary(y)) => bytes_eq(x.as_slice(), y.as_slice()),
        (
            ErlangTerm::BitBinary { bytes: x, tail_bits_size: s1 },
            ErlangTerm::BitBinary { bytes: y, tail_bits_size: s2 },
        ) => bytes_eq(x.as_slice(), y.as_slice()) && *s1 == *s2,
        (ErlangTerm::List(x), ErlangTerm::List(y)) => terms_eq(x, y),
        (
            ErlangTerm::ImproperList { elements: x, last: p },
            ErlangTerm::ImproperList { elements: y, last: q },
        ) => terms_eq(x, y) && term_eq(p, q),
        (ErlangTerm::Tuple(x), ErlangTerm::Tuple(y)) => terms_eq(x, y),
        (ErlangTerm::Mapping(x), ErlangTerm::Mapping(y)) => entries_eq(x, y),
        _ => false,
    }
}

/// Whether two sequences of terms are equal, term by term.
pub fn terms_eq(a: &Vec<ErlangTerm>, b: &Vec<ErlangTerm>) -> (r: bool)
    ensures
        r == same_terms(term_views(a@), term_views(b@)),
    decreases a,
{
    if a.len() != b.len() {
        return false;
    }
    let mut i: usize = 0;
    while i < a.len()
        invariant
            i <= a.len(),
            a.len() == b.len(),
            forall|k: int| 0 <= k < i ==> same_term(#[trigger] term_views(a@)[k], term_views(b@)[k]),
        decreases a.len() - i,
    {
        if !term_eq(&a[i], &b[i]) {
            assert(!same_term(term_views(a@)[i as int], term_views(b@)[i as int]));
            return false;
        }
        i += 1;
    }
    true
}

fn entries_eq(a: &Vec<(ErlangTerm, ErlangTerm)>, b: &Vec<(ErlangTerm, ErlangTerm)>) -> (r: bool)
    ensures
        r == (a@.len() == b@.len() && forall|k: int|
            0 <= k < a@.len() ==> same_term((#[trigger] entry_views(a@)[k]).0, entry_views(b@)[k].0)
                && same_term(entry_views(a@)[k].1, entry_views(b@)[k].1)),
    decreases a,
{
    if a.len() != b.len() {
        return false;
    }
    let mut i: usize = 0;
    while i < a.len()
        invariant
            i <= a.len(),
            a.len() == b.len(),
            forall|k: int|
                0 <= k < i ==> same_term((#[trigger] entry_views(a@)[k]).0, entry_views(b@)[k].0)
                    && same_term(entry_views(a@)[k].1, entry_views(b@)[k].1),
        decreases a.len() - i,
    {
        if !term_eq(&a[i].0, &b[i].0) {
            assert(!same_term(entry_views(a@)[i as int].0, entry_views(b@)[i as int].0));
            return false;
        }
        if !term_eq(&a[i].1, &b[i].1) {
            assert(!same_term(entry_views(a@)[i as int].1, entry_views(b@)[i as int].1));
            return false;
        }
        i += 1;
    }
    true
}

fn clone_pid(pid: &ProcessId) -> (r: ProcessId)
    ensures
        r@ == pid@,
{
    ProcessId { node: pid.node.clone(), id: pid.id, serial: pid.serial, creation: pid.creation }
}

/// Copies a term, with every term that it holds.
pub fn clone_term(t: &ErlangTerm) -> (r: ErlangTerm)
    ensures
        r@ == t@,
    decreases t,
{
    proof {
        lemma_view_of_children(*t);
    }
    let r = match t {
        ErlangTerm::Atom(name) => ErlangTerm::Atom(name.clone()),
        ErlangTerm::Integer(value) => ErlangTerm::Integer(*value),
        ErlangTerm::BigInteger(bytes) => ErlangTerm::BigInteger(slice_to_vec(bytes.as_slice())),
        ErlangTerm::Float(bits) => ErlangTerm::Float(*bits),
        ErlangTerm::Pid(pid) => ErlangTerm::Pid(clone_pid(pid)),
        ErlangTerm::Port { node, id, creation } => ErlangTerm::Port {
            node: node.clone(),
            id: *id,
            creation: *creation,
        },
        ErlangTerm::Reference { node, id, creation } => ErlangTerm::Reference {
            node: node.clone(),
            id: slice_to_vec(id.as_slice()),
            creation: *creation,
        },
        ErlangTerm::ExternalFun { module, function, arity } => ErlangTerm::ExternalFun {
            module: module.clone(),
            function: function.clone(),
            arity: *arity,
        },
        ErlangTerm::OldFun { module, pid, free_vars, index, uniq } => ErlangTerm::OldFun {
            module: module.clone(),
            pid: clone_pid(pid),
            free_vars: clone_terms(free_vars),
            index: *index,
            uniq: *uniq,
        },
        ErlangTerm::NewFun {
            module,
            arity,
            pid,
            free_vars,
            index,
            uniq,
            old_index,
            old_uniq,
        } => ErlangTerm::NewFun {
            module: module.clone(),
            arity: *arity,
            pid: clone_pid(pid),
            free_vars: clone_terms(free_vars),
            index: *index,
            uniq: *uniq,
            old_index: *old_index,
            old_uniq: *old_uniq,
        },
        ErlangTerm::Binary(bytes) => ErlangTerm::Binary(slice_to_vec(bytes.as_slice())),
        ErlangTerm::BitBinary { bytes, tail_bits_size } => ErlangTerm::BitBinary {
            bytes: slice_to_vec(bytes.as_slice()),
            tail_bits_size: *tail_bits_size,
        },
        ErlangTerm::List(elements) => ErlangTerm::List(clone_terms(elements)),
        ErlangTerm::ImproperList { elements, last } => ErlangTerm::ImproperList {
            elements: clone_terms(elements),
            last: Box::new(clone_term(last)),
        },
        ErlangTerm::Tuple(elements) => ErlangTerm::Tuple(clone_terms(elements)),
        ErlangTerm::Mapping(entries) => ErlangTerm::Mapping(clone_entries(entries)),
    };
    proof {
        lemma_view_of_children(r);
    }
    r
}

/// Copies a sequence of terms, term by term.
pub fn clone_terms(terms: &Vec<ErlangTerm>) -> (r: Vec<ErlangTerm>)
    ensures
        term_views(r@) == term_views(terms@),
    decreases terms,
{
    let mut r: Vec<ErlangTerm> = Vec::new();
    let mut i: usize = 0;
    while i < terms.len()
        invariant
            i <= terms.len(),
            r@.len() == i,
            forall|k: int| 0 <= k < i ==> (#[trigger] r@[k])@ == terms@[k]@,
        decreases terms.len() - i,
    {
        r.push(clone_term(&terms[i]));
        i += 1;
    }
    assert(term_views(r@) =~= term_views(terms@));
    r
}

fn clone_entries(entries: &Vec<(ErlangTerm, ErlangTerm)>) -> (r: Vec<(ErlangTerm, ErlangTerm)>)
    ensures
        entry_views(r@) == entry_views(entries@),
    decreases entries,
{
    let mut r: Vec<(ErlangTerm, ErlangTerm)> = Vec::new();
    let mut i: usize = 0;
    while i < entries.len()
        invariant
            i <= entries.len(),
            r@.len() == i,
            forall|k: int|
                0 <= k < i ==> (#[trigger] r@[k]).0@ == entries@[k].0@ && r@[k].1@
                    == entries@[k].1@,
        decreases entries.len() - i,
    {
        r.push((clone_term(&entries[i].0), clone_term(&entries[i].1)));
        i += 1;
    }
    assert(entry_views(r@) =~= entry_views(entries@));
    r
}

impl Clone for ErlangTerm {
    fn clone(&self) -> (r: Self)
        ensures
            r@ == self@,
    {
        clone_term(self)
    }
}

} // verus!
