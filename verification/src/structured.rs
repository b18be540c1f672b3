//! The merge of structured terms.
//!
//! The stored value and the operands are terms in their wire form. Every
//! operand that holds a term is folded into the running term, in order. Where
//! no operand holds a term, or no term is left to write, the merge falls back
//! to the counter over the same bytes.

use crate::codec::{bytes_of, decode_term, encode_term, term_of};
use crate::counter::{counter_merge, counter_text};
use crate::operands::{operand_views, stored_view};
use crate::operation::{merged_term, operation_of, process_eetf_merge_operation, OperationView};
use crate::term::{option_view, ErlangTerm, TermView};
use vstd::prelude::*;

verus! {

/// The term that the stored value holds, if it holds one.
pub open spec fn stored_term(stored: Option<Seq<u8>>) -> Option<TermView> {
    match stored {
        Some(bytes) => term_of(bytes),
        None => None,
    }
}

/// The running term after the operands: every operand that holds a term is
/// merged into it, in order, and every other operand is passed over.
pub open spec fn folded(current: Option<TermView>, operands: Seq<Seq<u8>>) -> Option<TermView>
    decreases operands.len(),
{
    if operands.len() == 0 {
        current
    } else {
        let before = folded(current, operands.drop_last());
        match term_of(operands.last()) {
            Some(operand) => merged_term(before, operand),
            None => before,
        }
    }
}

/// Whether some operand holds a term.
pub open spec fn any_term(operands: Seq<Seq<u8>>) -> bool {
    exists|i: int| 0 <= i < operands.len() && term_of(#[trigger] operands[i]) is Some
}

/// The wire form of the running term after the operands, where some operand
/// holds a term, a running term is left, and it has a wire form.
pub open spec fn structured_bytes(stored: Option<Seq<u8>>, operands: Seq<Seq<u8>>) -> Option<
    Seq<u8>,
> {
    if any_term(operands) {
        match folded(stored_term(stored), operands) {
            Some(term) => bytes_of(term),
            None => None,
        }
    } else {
        None
    }
}

/// The value that the structured merge leaves: the wire form of the running
/// term after the operands where there is one, and what the counter merge
/// leaves for the same bytes where there is none.
pub open spec fn structured_value(stored: Option<Seq<u8>>, operands: Seq<Seq<u8>>) -> Seq<u8> {
    match structured_bytes(stored, operands) {
        Some(bytes) => bytes,
        None => counter_text(stored, operands),
    }
}

/// Folding may go in steps: the running term after some operands, folded
/// with further operands, is the running term after all of them.
pub proof fn lemma_folds_in_steps(current: Option<TermView>, a: Seq<Seq<u8>>, b: Seq<Seq<u8>>)
    ensures
        folded(folded(current, a), b) == folded(current, a + b),
    decreases b.len(),
{
    if b.len() == 0 {
        assert(a + b =~= a);
    } else {
        lemma_folds_in_steps(current, a, b.drop_last());
        assert((a + b).drop_last() =~= a + b.drop_last());
        assert((a + b).last() == b.last());
    }
}

/// Where no operand holds a term, the structured merge leaves what the
/// counter merge leaves.
pub proof fn lemma_falls_back_to_counter(stored: Option<Seq<u8>>, operands: Seq<Seq<u8>>)
    requires
        forall|i: int| 0 <= i < operands.len() ==> term_of(#[trigger] operands[i]) is None,
    ensures
        structured_value(stored, operands) == counter_text(stored, operands),
{
}

/// Setting an element at an index that lies outside the running list leaves
/// the list as it is, and so its wire form.
pub proof fn lemma_list_set_outside_keeps_list(
    elements: Seq<TermView>,
    operand: TermView,
    index: i32,
    value: TermView,
)
    requires
        operation_of(operand) == Some(OperationView::ListSet(index, value)),
        index < 0 || index >= elements.len(),
    ensures
        merged_term(Some(TermView::List(elements)), operand) == Some(TermView::List(elements)),
        merged_term(Some(TermView::List(elements)), operand) matches Some(after) && bytes_of(after)
            == bytes_of(TermView::List(elements)),
{
}

/// Merges structured terms: the stored value and the operands are read as
/// terms, every operand that is a term is merged into the running term, and
/// the running term is written. Where no operand is a term, or nothing is
/// left to write, the value is that of the counter merge over the same bytes.
///
/// The merge never fails: it always leaves a value.
pub fn erlang_merge(_key: &[u8], existing_val: Option<&[u8]>, operands: &[Vec<u8>]) -> (r: Option<
    Vec<u8>,
>)
    ensures
        r matches Some(merged) && merged@ == structured_value(
            stored_view(existing_val),
            operand_views(operands@),
        ),
{
    let mut current: Option<ErlangTerm> = match existing_val {
        Some(val) => decode_term(val),
        None => None,
    };
    let mut decoded_any = false;
    let ghost start = stored_term(stored_view(existing_val));
    let ghost all = operand_views(operands@);
    assert(all.subrange(0, 0) =~= Seq::<Seq<u8>>::empty());
    let mut i: usize = 0;
    while i < operands.len()
        invariant
            i <= operands.len(),
            all == operand_views(operands@),
            option_view(current) == folded(start, all.subrange(0, i as int)),
            decoded_any == any_term(all.subrange(0, i as int)),
        decreases operands.len() - i,
    {
        let ghost done = all.subrange(0, i as int);
        let ghost next = all.subrange(0, i + 1);
        proof {
            assert(next.drop_last() =~= done);
            assert(next.last() == operands@[i as int]@);
            assert(forall|k: int| 0 <= k < done.len() ==> done[k] == next[k]);
        }
        match decode_term(operands[i].as_slice()) {
            Some(operand) => {
                current = process_eetf_merge_operation(current, operand);
                decoded_any = true;
                assert(term_of(next[i as int]) is Some);
            },
            None => {
                proof {
                    if any_term(next) {
                        let k = choose|k: int|
                            0 <= k < next.len() && term_of(#[trigger] next[k]) is Some;
                        assert(term_of(done[k]) is Some);
                    }
                    if any_term(done) {
                        let k = choose|k: int|
                            0 <= k < done.len() && term_of(#[trigger] done[k]) is Some;
                        assert(term_of(next[k]) is Some);
                    }
                }
            },
        }
        i += 1;
    }
    assert(all.subrange(0, i as int) =~= all);
    if decoded_any {
        match current {
            Some(term) => match encode_term(term) {
                Some(bytes) => {
                    return Some(bytes);
                },
                None => {},
            },
            None => {},
        }
    }
    counter_merge(_key, existing_val, operands)
}

} // verus!
