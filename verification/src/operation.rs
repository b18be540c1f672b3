//! Editing operations on structured terms.
//!
//! An operation is a tuple whose first element is an atom that names it and
//! whose following elements are its parameters. A term of any other shape is
//! no operation, and leaves the running term as it is.

use crate::term::{
    bytes_eq, lemma_view_of_children, occurs_in, option_view, same_term, term_eq, term_views, ErlangTerm,
    TermView,
};
use vstd::prelude::*;

verus! {

/// The names of the editing operations.
#[derive(Debug, Clone, Copy, PartialEq, Eq)]
pub enum OperationName {
    IntAdd,
    ListAppend,
    ListPrepend,
    ListSubtract,
    ListSet,
    ListDelete,
    ListInsert,
    BinaryAppend,
    BinaryErase,
    BinaryInsert,
    BinaryReplace,
}

/// The operation that an atom names, if it names one.
pub open spec fn operation_named(name: Seq<char>) -> Option<OperationName> {
    if name == "int_add"@ {
        Some(OperationName::IntAdd)
    } else if name == "list_append"@ {
        Some(OperationName::ListAppend)
    } else if name == "list_prepend"@ {
        Some(OperationName::ListPrepend)
    } else if name == "list_subtract"@ {
        Some(OperationName::ListSubtract)
    } else if name == "list_set"@ {
        Some(OperationName::ListSet)
    } else if name == "list_delete"@ {
        Some(OperationName::ListDelete)
    } else if name == "list_insert"@ {
        Some(OperationName::ListInsert)
    } else if name == "binary_append"@ {
        Some(OperationName::BinaryAppend)
    } else if name == "binary_erase"@ {
        Some(OperationName::BinaryErase)
    } else if name == "binary_insert"@ {
        Some(OperationName::BinaryInsert)
    } else if name == "binary_replace"@ {
        Some(OperationName::BinaryReplace)
    } else {
        None
    }
}

fn name_is(name: &str, literal: &str) -> (r: bool)
    ensures
        r == (name@ == literal@),
{
    proof {
        vstd::utf8::encode_utf8_decode_utf8(name@);
        vstd::utf8::encode_utf8_decode_utf8(literal@);
    }
    bytes_eq(name.as_bytes(), literal.as_bytes())
}

/// Looks an operation up by its name.
pub fn operation_by_name(name: &str) -> (r: Option<OperationName>)
    ensures
        r == operation_named(name@),
{
    if name_is(name, "int_add") {
        Some(OperationName::IntAdd)
    } else if name_is(name, "list_append") {
        Some(OperationName::ListAppend)
    } else if name_is(name, "list_prepend") {
        Some(OperationName::ListPrepend)
    } else if name_is(name, "list_subtract") {
        Some(OperationName::ListSubtract)
    } else if name_is(name, "list_set") {
        Some(OperationName::ListSet)
    } else if name_is(name, "list_delete") {
        Some(OperationName::ListDelete)
    } else if name_is(name, "list_insert") {
        Some(OperationName::ListInsert)
    } else if name_is(name, "binary_append") {
        Some(OperationName::BinaryAppend)
    } else if name_is(name, "binary_erase") {
        Some(OperationName::BinaryErase)
    } else if name_is(name, "binary_insert") {
        Some(OperationName::BinaryInsert)
    } else if name_is(name, "binary_replace") {
        Some(OperationName::BinaryReplace)
    } else {
        None
    }
}

/// An editing operation with its parameters.
#[derive(Debug, PartialEq, Eq)]
pub enum Operation {
    /// Add to the running integer.
    IntAdd(i32),
    /// Put the elements at the tail of the running list.
    ListAppend(Vec<ErlangTerm>),
    /// Put the elements at the head of the running list.
    ListPrepend(Vec<ErlangTerm>),
    /// Remove from the running list every element that equals one of these.
    ListSubtract(Vec<ErlangTerm>),
    /// Replace the element at an index.
    ListSet(i32, ErlangTerm),
    /// Remove the element at an index.
    ListDelete(i32),
    /// Remove the elements from a start index up to, not including, an end index.
    ListDeleteRange(i32, i32),
    /// Insert the elements at an index.
    ListInsert(i32, Vec<ErlangTerm>),
    /// Put the bytes at the end of the running binary.
    BinaryAppend(Vec<u8>),
    /// Remove a count of bytes at a position.
    BinaryErase(i32, i32),
    /// Insert the bytes at a position.
    BinaryInsert(i32, Vec<u8>),
    /// Remove a count of bytes at a position and insert the bytes there.
    BinaryReplace(i32, i32, Vec<u8>),
}

/// The mathematical value of an [`Operation`].
pub enum OperationView {
    IntAdd(i32),
    ListAppend(Seq<TermView>),
    ListPrepend(Seq<TermView>),
    ListSubtract(Seq<TermView>),
    ListSet(i32, TermView),
    ListDelete(i32),
    ListDeleteRange(i32, i32),
    ListInsert(i32, Seq<TermView>),
    BinaryAppend(Seq<u8>),
    BinaryErase(i32, i32),
    BinaryInsert(i32, Seq<u8>),
    BinaryReplace(i32, i32, Seq<u8>),
}

impl View for Operation {
    type V = OperationView;

    open spec fn view(&self) -> OperationView {
        match self {
            Operation::IntAdd(n) => OperationView::IntAdd(*n),
            Operation::ListAppend(items) => OperationView::ListAppend(term_views(items@)),
            Operation::ListPrepend(items) => OperationView::ListPrepend(term_views(items@)),
            Operation::ListSubtract(items) => OperationView::ListSubtract(term_views(items@)),
            Operation::ListSet(index, value) => OperationView::ListSet(*index, value@),
            Operation::ListDelete(index) => OperationView::ListDelete(*index),
            Operation::ListDeleteRange(start, end) => OperationView::ListDeleteRange(*start, *end),
            Operation::ListInsert(index, items) => OperationView::ListInsert(
                *index,
                term_views(items@),
            ),
            Operation::BinaryAppend(bytes) => OperationView::BinaryAppend(bytes@),
            Operation::BinaryErase(position, count) => OperationView::BinaryErase(
                *position,
                *count,
            ),
            Operation::BinaryInsert(position, bytes) => OperationView::BinaryInsert(
                *position,
                bytes@,
            ),
            Operation::BinaryReplace(position, count, bytes) => OperationView::BinaryReplace(
                *position,
                *count,
                bytes@,
            ),
        }
    }
}

/// The value of an operation that may be absent.
pub open spec fn operation_option_view(op: Option<Operation>) -> Option<OperationView> {
    match op {
        Some(op) => Some(op@),
        None => None,
    }
}

/// The operation that the elements of a tuple spell under a given name: the
/// parameters that the operation takes must stand behind the name, each of its
/// kind. Elements behind the last parameter are not looked at.
pub open spec fn operation_with(name: OperationName, elements: Seq<TermView>) -> Option<
    OperationView,
>
    recommends
        elements.len() >= 2,
{
    match name {
        OperationName::IntAdd => match elements[1] {
            TermView::Integer(n) => Some(OperationView::IntAdd(n)),
            _ => None,
        },
        OperationName::ListAppend => match elements[1] {
            TermView::List(items) => Some(OperationView::ListAppend(items)),
            _ => None,
        },
        OperationName::ListPrepend => match elements[1] {
            TermView::List(items) => Some(OperationView::ListPrepend(items)),
            _ => None,
        },
        OperationName::ListSubtract => match elements[1] {
            TermView::List(items) => Some(OperationView::ListSubtract(items)),
            _ => None,
        },
        OperationName::ListSet => if elements.len() >= 3 {
            match elements[1] {
                TermView::Integer(index) => Some(OperationView::ListSet(index, elements[2])),
                _ => None,
            }
        } else {
            None
        },
        OperationName::ListDelete => match elements[1] {
            TermView::Integer(start) => if elements.len() >= 3 {
                match elements[2] {
                    TermView::Integer(end) => Some(OperationView::ListDeleteRange(start, end)),
                    _ => None,
                }
            } else {
                Some(OperationView::ListDelete(start))
            },
            _ => None,
        },
        OperationName::ListInsert => if elements.len() >= 3 {
            match (elements[1], elements[2]) {
                (TermView::Integer(index), TermView::List(items)) => Some(
                    OperationView::ListInsert(index, items),
                ),
                _ => None,
            }
        } else {
            None
        },
        OperationName::BinaryAppend => match elements[1] {
            TermView::Binary(bytes) => Some(OperationView::BinaryAppend(bytes)),
            _ => None,
        },
        OperationName::BinaryErase => if elements.len() >= 3 {
            match (elements[1], elements[2]) {
                (TermView::Integer(position), TermView::Integer(count)) => Some(
                    OperationView::BinaryErase(position, count),
                ),
                _ => None,
            }
        } else {
            None
        },
        OperationName::BinaryInsert => if elements.len() >= 3 {
            match (elements[1], elements[2]) {
                (TermView::Integer(position), TermView::Binary(bytes)) => Some(
                    OperationView::BinaryInsert(position, bytes),
                ),
                _ => None,
            }
        } else {
            None
        },
        OperationName::BinaryReplace => if elements.len() >= 4 {
            match (elements[1], elements[2], elements[3]) {
                (
                    TermView::Integer(position),
                    TermView::Integer(count),
                    TermView::Binary(bytes),
                ) => Some(OperationView::BinaryReplace(position, count, bytes)),
                _ => None,
            }
        } else {
            None
        },
    }
}

/// The operation that a term spells, if it spells one: a tuple of at least two
/// elements, the first an atom that names an operation, the following ones the
/// parameters of that operation.
pub open spec fn operation_of(operand: TermView) -> Option<OperationView> {
    match operand {
        TermView::Tuple(elements) => if elements.len() >= 2 {
            match elements[0] {
                TermView::Atom(name) => match operation_named(name) {
                    Some(name) => operation_with(name, elements),
                    None => None,
                },
                _ => None,
            }
        } else {
            None
        },
        _ => None,
    }
}

/// The running term as an integer: zero where it is absent or no bounded integer.
pub open spec fn as_int_or_zero(existing: Option<TermView>) -> int {
    match existing {
        Some(TermView::Integer(value)) => value as int,
        _ => 0,
    }
}

/// The running term as a list: empty where it is absent or no list.
pub open spec fn as_list_or_empty(existing: Option<TermView>) -> Seq<TermView> {
    match existing {
        Some(TermView::List(elements)) => elements,
        _ => Seq::empty(),
    }
}

/// The running term as a binary: empty where it is absent or no binary.
pub open spec fn as_binary_or_empty(existing: Option<TermView>) -> Seq<u8> {
    match existing {
        Some(TermView::Binary(bytes)) => bytes,
        _ => Seq::empty(),
    }
}

/// The sum of two bounded integers, wrapped into the range of a bounded integer.
pub open spec fn wrapped_sum(a: int, b: int) -> i32
    recommends
        i32::MIN <= a <= i32::MAX,
        i32::MIN <= b <= i32::MAX,
{
    if a + b > i32::MAX {
        (a + b - 0x1_0000_0000) as i32
    } else if a + b < i32::MIN {
        (a + b + 0x1_0000_0000) as i32
    } else {
        (a + b) as i32
    }
}

/// `items` with the part from `start` up to, not including, `end` replaced by `inserted`.
pub open spec fn spliced<T>(items: Seq<T>, start: int, end: int, inserted: Seq<T>) -> Seq<T>
    recommends
        0 <= start <= end <= items.len(),
{
    items.subrange(0, start) + inserted + items.subrange(end, items.len() as int)
}

/// `list` without the elements that equal some element of `removed`.
pub open spec fn without(list: Seq<TermView>, removed: Seq<TermView>) -> Seq<TermView> {
    list.filter(|t: TermView| !occurs_in(t, removed))
}

/// Removal goes element by element: the last element stays or leaves by
/// itself, and the elements before it fare as they would without it.
pub proof fn lemma_without_push(list: Seq<TermView>, last: TermView, removed: Seq<TermView>)
    ensures
        without(Seq::empty(), removed) == Seq::<TermView>::empty(),
        without(list.push(last), removed) == if occurs_in(last, removed) {
            without(list, removed)
        } else {
            without(list, removed).push(last)
        },
{
    reveal_with_fuel(Seq::filter, 2);
    assert(list.push(last).drop_last() =~= list);
}

/// The term that an operation makes of the running term.
///
/// The running term is first taken as what the operation works on: an integer,
/// a list or a binary, and as zero or empty where it is absent or of another
/// kind. An index or a range that does not lie within the list or binary
/// leaves it as it is.
pub open spec fn applied(existing: Option<TermView>, op: OperationView) -> TermView {
    let list = as_list_or_empty(existing);
    let binary = as_binary_or_empty(existing);
    match op {
        OperationView::IntAdd(n) => TermView::Integer(
            wrapped_sum(as_int_or_zero(existing), n as int),
        ),
        OperationView::ListAppend(items) => TermView::List(list + items),
        OperationView::ListPrepend(items) => TermView::List(items + list),
        OperationView::ListSubtract(items) => TermView::List(without(list, items)),
        OperationView::ListSet(index, value) => TermView::List(
            if 0 <= index < list.len() {
                list.update(index as int, value)
            } else {
                list
            },
        ),
        OperationView::ListDelete(index) => TermView::List(
            if 0 <= index < list.len() {
                list.remove(index as int)
            } else {
                list
            },
        ),
        OperationView::ListDeleteRange(start, end) => TermView::List(
            if 0 <= start <= end <= list.len() {
                spliced(list, start as int, end as int, Seq::empty())
            } else {
                list
            },
        ),
        OperationView::ListInsert(index, items) => TermView::List(
            if 0 <= index <= list.len() {
                spliced(list, index as int, index as int, items)
            } else {
                list
            },
        ),
        OperationView::BinaryAppend(bytes) => TermView::Binary(binary + bytes),
        OperationView::BinaryErase(position, count) => TermView::Binary(
            if 0 <= position && 0 <= count && position + count <= binary.len() {
                spliced(binary, position as int, position + count, Seq::empty())
            } else {
                binary
            },
        ),
        OperationView::BinaryInsert(position, bytes) => TermView::Binary(
            if 0 <= position <= binary.len() {
                spliced(binary, position as int, position as int, bytes)
            } else {
                binary
            },
        ),
        OperationView::BinaryReplace(position, count, bytes) => TermView::Binary(
            if 0 <= position && 0 <= count && position + count <= binary.len() {
                spliced(binary, position as int, position + count, bytes)
            } else {
                binary
            },
        ),
    }
}

/// The running term after one operand: what the operation makes of it where
/// the operand spells an operation, and the running term itself where it does not.
pub open spec fn merged_term(existing: Option<TermView>, operand: TermView) -> Option<TermView> {
    match operation_of(operand) {
        Some(op) => Some(applied(existing, op)),
        None => existing,
    }
}

fn in_range(index: i32, len: usize) -> (r: bool)
    ensures
        r == (0 <= index < len),
{
    index >= 0 && (index as usize) < len
}

fn up_to(index: i32, len: usize) -> (r: bool)
    ensures
        r == (0 <= index <= len),
{
    index >= 0 && (index as usize) <= len
}

fn range_within(position: i32, count: i32, len: usize) -> (r: bool)
    ensures
        r == (0 <= position && 0 <= count && position + count <= len),
{
    position >= 0 && count >= 0 && (position as u64) + (count as u64) <= len as u64
}

fn splice<T>(items: &mut Vec<T>, start: usize, end: usize, inserted: Vec<T>)
    requires
        start <= end <= old(items)@.len(),
    ensures
        final(items)@ == spliced(old(items)@, start as int, end as int, inserted@),
{
    let mut middle = inserted;
    let mut tail = items.split_off(end);
    items.truncate(start);
    items.append(&mut middle);
    items.append(&mut tail);
    assert(items@ =~= spliced(old(items)@, start as int, end as int, inserted@));
}

fn reversed<T>(items: Vec<T>) -> (r: Vec<T>)
    ensures
        r@ == items@.reverse(),
{
    let mut rest = items;
    let mut r: Vec<T> = Vec::new();
    while rest.len() > 0
        invariant
            rest@.len() + r@.len() == items@.len(),
            rest@ == items@.subrange(0, rest@.len() as int),
            forall|k: int| 0 <= k < r@.len() ==> r@[k] == items@[items@.len() - 1 - k],
        decreases rest@.len(),
    {
        let last = rest.pop();
        r.push(last.unwrap());
    }
    assert(r@ =~= items@.reverse());
    r
}

fn occurs(t: &ErlangTerm, terms: &Vec<ErlangTerm>) -> (r: bool)
    ensures
        r == occurs_in(t@, term_views(terms@)),
{
    let mut i: usize = 0;
    while i < terms.len()
        invariant
            i <= terms.len(),
            forall|k: int| 0 <= k < i ==> !same_term(t@, #[trigger] term_views(terms@)[k]),
        decreases terms.len() - i,
    {
        if term_eq(t, &terms[i]) {
            assert(same_term(t@, term_views(terms@)[i as int]));
            return true;
        }
        i += 1;
    }
    false
}

fn remove_occurrences(list: Vec<ErlangTerm>, removed: &Vec<ErlangTerm>) -> (r: Vec<ErlangTerm>)
    ensures
        term_views(r@) == without(term_views(list@), term_views(removed@)),
{
    let ghost whole = list@;
    let ghost gone = term_views(removed@);
    let mut stack = reversed(list);
    let mut kept: Vec<ErlangTerm> = Vec::new();
    proof {
        lemma_without_push(Seq::empty(), arbitrary(), gone);
        assert(term_views(whole.subrange(0, 0)) =~= Seq::<TermView>::empty());
        assert(term_views(kept@) =~= Seq::<TermView>::empty());
    }
    while stack.len() > 0
        invariant
            stack@.len() <= whole.len(),
            gone == term_views(removed@),
            forall|k: int| 0 <= k < stack@.len() ==> stack@[k] == whole[whole.len() - 1 - k],
            term_views(kept@) == without(
                term_views(whole.subrange(0, whole.len() - stack@.len())),
                gone,
            ),
        decreases stack@.len(),
    {
        let ghost done = whole.subrange(0, whole.len() - stack@.len());
        let next = stack.pop().unwrap();
        let ghost kept_before = kept@;
        proof {
            lemma_without_push(term_views(done), next@, gone);
            assert(term_views(done.push(next)) =~= term_views(done).push(next@));
            assert(whole.subrange(0, whole.len() - stack@.len()) =~= done.push(next));
        }
        if !occurs(&next, removed) {
            kept.push(next);
            assert(term_views(kept@) =~= term_views(kept_before).push(next@));
        }
    }
    assert(whole.subrange(0, whole.len() as int) =~= whole);
    kept
}

fn list_or_empty(existing: Option<ErlangTerm>) -> (r: Vec<ErlangTerm>)
    ensures
        term_views(r@) == as_list_or_empty(option_view(existing)),
{
    match existing {
        Some(ErlangTerm::List(elements)) => {
            proof {
                lemma_view_of_children(ErlangTerm::List(elements));
            }
            elements
        },
        _ => {
            let r: Vec<ErlangTerm> = Vec::new();
            assert(term_views(r@) =~= Seq::<TermView>::empty());
            r
        },
    }
}

fn binary_or_empty(existing: Option<ErlangTerm>) -> (r: Vec<u8>)
    ensures
        r@ == as_binary_or_empty(option_view(existing)),
{
    match existing {
        Some(ErlangTerm::Binary(bytes)) => bytes,
        _ => Vec::new(),
    }
}

fn list_term(elements: Vec<ErlangTerm>) -> (r: ErlangTerm)
    ensures
        r@ == TermView::List(term_views(elements@)),
{
    proof {
        lemma_view_of_children(ErlangTerm::List(elements));
    }
    ErlangTerm::List(elements)
}

/// Reads a term as an operation.
pub fn parse_operation(operand: ErlangTerm) -> (r: Option<Operation>)
    ensures
        operation_option_view(r) == operation_of(operand@),
{
    proof {
        lemma_view_of_children(operand);
    }
    let mut elements = match operand {
        ErlangTerm::Tuple(elements) => elements,
        _ => {
            return None;
        },
    };
    if elements.len() < 2 {
        return None;
    }
    let ghost views = term_views(elements@);
    let found = match &elements[0] {
        ErlangTerm::Atom(name) => operation_by_name(name.as_str()),
        _ => None,
    };
    let name = match found {
        Some(name) => name,
        None => {
            return None;
        },
    };
    assert(operation_of(operand@) == operation_with(name, views));
    proof {
        lemma_view_of_children(elements@[1]);
        if elements@.len() >= 3 {
            lemma_view_of_children(elements@[2]);
        }
    }
    match name {
        OperationName::IntAdd => match &elements[1] {
            ErlangTerm::Integer(n) => Some(Operation::IntAdd(*n)),
            _ => None,
        },
        OperationName::ListAppend => match elements.swap_remove(1) {
            ErlangTerm::List(items) => Some(Operation::ListAppend(items)),
            _ => None,
        },
        OperationName::ListPrepend => match elements.swap_remove(1) {
            ErlangTerm::List(items) => Some(Operation::ListPrepend(items)),
            _ => None,
        },
        OperationName::ListSubtract => match elements.swap_remove(1) {
            ErlangTerm::List(items) => Some(Operation::ListSubtract(items)),
            _ => None,
        },
        OperationName::ListSet => {
            if elements.len() < 3 {
                return None;
            }
            let index = match &elements[1] {
                ErlangTerm::Integer(index) => *index,
                _ => {
                    return None;
                },
            };
            let value = elements.swap_remove(2);
            Some(Operation::ListSet(index, value))
        },
        OperationName::ListDelete => {
            let start = match &elements[1] {
                ErlangTerm::Integer(start) => *start,
                _ => {
                    return None;
                },
            };
            if elements.len() >= 3 {
                match &elements[2] {
                    ErlangTerm::Integer(end) => Some(Operation::ListDeleteRange(start, *end)),
                    _ => None,
                }
            } else {
                Some(Operation::ListDelete(start))
            }
        },
        OperationName::ListInsert => {
            if elements.len() < 3 {
                return None;
            }
            let index = match &elements[1] {
                ErlangTerm::Integer(index) => *index,
                _ => {
                    return None;
                },
            };
            match elements.swap_remove(2) {
                ErlangTerm::List(items) => Some(Operation::ListInsert(index, items)),
                _ => None,
            }
        },
        OperationName::BinaryAppend => match elements.swap_remove(1) {
            ErlangTerm::Binary(bytes) => Some(Operation::BinaryAppend(bytes)),
            _ => None,
        },
        OperationName::BinaryErase => {
            if elements.len() < 3 {
                return None;
            }
            match (&elements[1], &elements[2]) {
                (ErlangTerm::Integer(position), ErlangTerm::Integer(count)) => Some(
                    Operation::BinaryErase(*position, *count),
                ),
                _ => None,
            }
        },
        OperationName::BinaryInsert => {
            if elements.len() < 3 {
                return None;
            }
            let position = match &elements[1] {
                ErlangTerm::Integer(position) => *position,
                _ => {
                    return None;
                },
            };
            match elements.swap_remove(2) {
                ErlangTerm::Binary(bytes) => Some(Operation::BinaryInsert(position, bytes)),
                _ => None,
            }
        },
        OperationName::BinaryReplace => {
            if elements.len() < 4 {
                return None;
            }
            let (position, count) = match (&elements[1], &elements[2]) {
                (ErlangTerm::Integer(position), ErlangTerm::Integer(count)) => (*position, *count),
                _ => {
                    return None;
                },
            };
            match elements.swap_remove(3) {
                ErlangTerm::Binary(bytes) => Some(Operation::BinaryReplace(position, count, bytes)),
                _ => None,
            }
        },
    }
}

/// Applies an operation to the running term.
pub fn apply_operation(existing: Option<ErlangTerm>, op: Operation) -> (r: ErlangTerm)
    ensures
        r@ == applied(option_view(existing), op@),
{
    match op {
        Operation::IntAdd(n) => {
            let current = match existing {
                Some(ErlangTerm::Integer(value)) => value,
                _ => 0,
            };
            ErlangTerm::Integer(current.wrapping_add(n))
        },
        Operation::ListAppend(items) => {
            let mut list = list_or_empty(existing);
            let mut items = items;
            let ghost before = list@;
            list.append(&mut items);
            assert(term_views(list@) =~= term_views(before) + term_views(op->ListAppend_0@));
            list_term(list)
        },
        Operation::ListPrepend(items) => {
            let mut list = list_or_empty(existing);
            let mut items = items;
            let ghost before = list@;
            items.append(&mut list);
            assert(term_views(items@) =~= term_views(op->ListPrepend_0@) + term_views(before));
            list_term(items)
        },
        Operation::ListSubtract(items) => {
            let list = list_or_empty(existing);
            list_term(remove_occurrences(list, &items))
        },
        Operation::ListSet(index, value) => {
            let mut list = list_or_empty(existing);
            let ghost before = list@;
            if in_range(index, list.len()) {
                list.set(index as usize, value);
                assert(term_views(list@) =~= term_views(before).update(index as int, value@));
            }
            list_term(list)
        },
        Operation::ListDelete(index) => {
            let mut list = list_or_empty(existing);
            let ghost before = list@;
            if in_range(index, list.len()) {
                list.remove(index as usize);
                assert(term_views(list@) =~= term_views(before).remove(index as int));
            }
            list_term(list)
        },
        Operation::ListDeleteRange(start, end) => {
            let mut list = list_or_empty(existing);
            let ghost before = list@;
            if up_to(start, list.len()) && up_to(end, list.len()) && start <= end {
                splice(&mut list, start as usize, end as usize, Vec::new());
                assert(term_views(list@) =~= spliced(
                    term_views(before),
                    start as int,
                    end as int,
                    Seq::empty(),
                ));
            }
            list_term(list)
        },
        Operation::ListInsert(index, items) => {
            let mut list = list_or_empty(existing);
            let ghost before = list@;
            let ghost inserted = items@;
            if up_to(index, list.len()) {
                splice(&mut list, index as usize, index as usize, items);
                assert(term_views(list@) =~= spliced(
                    term_views(before),
                    index as int,
                    index as int,
                    term_views(inserted),
                ));
            }
            list_term(list)
        },
        Operation::BinaryAppend(bytes) => {
            let mut binary = binary_or_empty(existing);
            let mut bytes = bytes;
            binary.append(&mut bytes);
            ErlangTerm::Binary(binary)
        },
        Operation::BinaryErase(position, count) => {
            let mut binary = binary_or_empty(existing);
            if range_within(position, count, binary.len()) {
                splice(&mut binary, position as usize, position as usize + count as usize, Vec::new());
            }
            ErlangTerm::Binary(binary)
        },
        Operation::BinaryInsert(position, bytes) => {
            let mut binary = binary_or_empty(existing);
            if up_to(position, binary.len()) {
                splice(&mut binary, position as usize, position as usize, bytes);
            }
            ErlangTerm::Binary(binary)
        },
        Operation::BinaryReplace(position, count, bytes) => {
            let mut binary = binary_or_empty(existing);
            if range_within(position, count, binary.len()) {
                splice(&mut binary, position as usize, position as usize + count as usize, bytes);
            }
            ErlangTerm::Binary(binary)
        },
    }
}

/// Folds one operand into the running term.
///
/// An operand that spells an operation is applied to the running term. Any
/// other operand leaves the running term as it is, absent where it was absent.
pub fn process_eetf_merge_operation(existing_value: Option<ErlangTerm>, operand: ErlangTerm) -> (r: Option<
    ErlangTerm,
>)
    ensures
        option_view(r) == merged_term(option_view(existing_value), operand@),
{
    match parse_operation(operand) {
        Some(op) => Some(apply_operation(existing_value, op)),
        None => existing_value,
    }
}

} // verus!
