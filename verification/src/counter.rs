//! The counter: a sum of integers written as decimal text.
//!
//! The stored value and every operand are texts. A text that spells a signed
//! 64-bit integer counts as that integer, any other text and an absent value
//! count as zero. The sum wraps around as signed 64-bit arithmetic does.

use crate::decimal::{decimal_text, format_i64, lemma_text_reads_back, parse_i64, parsed_i64};
use crate::operands::{operand_views, stored_view};
use vstd::arithmetic::div_mod::{lemma_fundamental_div_mod, lemma_fundamental_div_mod_converse};
use vstd::prelude::*;

verus! {

/// What a text counts as: the integer that it spells, or zero where it spells none.
pub open spec fn text_value(text: Seq<u8>) -> int {
    match parsed_i64(text) {
        Some(v) => v as int,
        None => 0,
    }
}

/// What the stored value counts as; an absent one counts as zero.
pub open spec fn stored_value(stored: Option<Seq<u8>>) -> int {
    match stored {
        Some(text) => text_value(text),
        None => 0,
    }
}

/// The sum of what the operands count as.
pub open spec fn operands_sum(operands: Seq<Seq<u8>>) -> int
    decreases operands.len(),
{
    if operands.len() == 0 {
        0
    } else {
        operands_sum(operands.drop_last()) + text_value(operands.last())
    }
}

/// An integer wrapped around into the range of a signed 64-bit integer.
pub open spec fn wrapped(x: int) -> i64 {
    ((x + 0x8000_0000_0000_0000) % 0x1_0000_0000_0000_0000 - 0x8000_0000_0000_0000) as i64
}

/// The counter after the operands: the stored value and the operands summed up, wrapped.
pub open spec fn counter_total(stored: Option<Seq<u8>>, operands: Seq<Seq<u8>>) -> i64 {
    wrapped(stored_value(stored) + operands_sum(operands))
}

/// The value that the counter merge leaves: the text of the counter after the operands.
pub open spec fn counter_text(stored: Option<Seq<u8>>, operands: Seq<Seq<u8>>) -> Seq<u8> {
    decimal_text(counter_total(stored, operands) as int)
}

proof fn lemma_wrapped_in_range(x: i64)
    ensures
        wrapped(x as int) == x,
{
    lemma_fundamental_div_mod_converse(
        x + 0x8000_0000_0000_0000,
        0x1_0000_0000_0000_0000,
        0,
        x + 0x8000_0000_0000_0000,
    );
}

proof fn lemma_wrapped_step(total: int, sum: i64, v: i64)
    requires
        sum == wrapped(total),
    ensures
        sum.wrapping_add(v) == wrapped(total + v),
{
    let range = 0x1_0000_0000_0000_0000int;
    let half = 0x8000_0000_0000_0000int;
    let k = (total + half) / range;
    lemma_fundamental_div_mod(total + half, range);
    assert(total + half == range * k + (sum + half));
    let w = sum.wrapping_add(v);
    let j: int = if sum + v > i64::MAX {
        1
    } else if sum + v < i64::MIN {
        -1
    } else {
        0
    };
    assert(w == sum + v - j * range);
    assert(total + v + half == (k + j) * range + (w + half)) by (nonlinear_arith)
        requires
            total + half == range * k + (sum + half),
            w == sum + v - j * range,
    ;
    lemma_fundamental_div_mod_converse(total + v + half, range, k + j, w + half);
}

/// Taking an operand out of the sequence takes what it counts as out of the sum.
proof fn lemma_sum_without(operands: Seq<Seq<u8>>, i: int)
    requires
        0 <= i < operands.len(),
    ensures
        operands_sum(operands) == operands_sum(operands.remove(i)) + text_value(operands[i]),
    decreases operands.len(),
{
    if i == operands.len() - 1 {
        assert(operands.remove(i) =~= operands.drop_last());
    } else {
        lemma_sum_without(operands.drop_last(), i);
        assert(operands.remove(i).drop_last() =~= operands.drop_last().remove(i));
        assert(operands.remove(i).last() == operands.last());
    }
}

/// The sum of the operands does not depend on their order.
pub proof fn lemma_sum_ignores_order(a: Seq<Seq<u8>>, b: Seq<Seq<u8>>)
    requires
        a.to_multiset() == b.to_multiset(),
    ensures
        operands_sum(a) == operands_sum(b),
    decreases a.len(),
{
    a.to_multiset_ensures();
    b.to_multiset_ensures();
    if a.len() > 0 {
        let last = a.last();
        assert(a[a.len() - 1] == last);
        assert(a.contains(last));
        assert(a.to_multiset().count(last) > 0);
        assert(b.to_multiset().count(last) > 0);
        assert(b.contains(last));
        let i = choose|i: int| 0 <= i < b.len() && b[i] == last;
        assert(a.drop_last() =~= a.remove(a.len() - 1));
        assert(a.drop_last().to_multiset() == b.remove(i).to_multiset());
        lemma_sum_ignores_order(a.drop_last(), b.remove(i));
        lemma_sum_without(b, i);
    }
}

/// The counter merge gives the same value for the same operands in any order.
pub proof fn lemma_counter_ignores_order(
    stored: Option<Seq<u8>>,
    a: Seq<Seq<u8>>,
    b: Seq<Seq<u8>>,
)
    requires
        a.to_multiset() == b.to_multiset(),
    ensures
        counter_text(stored, a) == counter_text(stored, b),
{
    lemma_sum_ignores_order(a, b);
}

/// The sum of operands that stand one sequence behind the other is the sum of
/// the sums of the two.
pub proof fn lemma_sum_of_both(a: Seq<Seq<u8>>, b: Seq<Seq<u8>>)
    ensures
        operands_sum(a + b) == operands_sum(a) + operands_sum(b),
    decreases b.len(),
{
    if b.len() == 0 {
        assert(a + b =~= a);
    } else {
        lemma_sum_of_both(a, b.drop_last());
        assert((a + b).drop_last() =~= a + b.drop_last());
        assert((a + b).last() == b.last());
    }
}

/// Merging may go in steps: the value that a merge leaves, stored and merged
/// with further operands, is the value that one merge of all operands leaves.
pub proof fn lemma_counter_merges_in_steps(
    stored: Option<Seq<u8>>,
    a: Seq<Seq<u8>>,
    b: Seq<Seq<u8>>,
)
    ensures
        counter_text(Some(counter_text(stored, a)), b) == counter_text(stored, a + b),
{
    let first = counter_total(stored, a);
    lemma_text_reads_back(first);
    lemma_sum_of_both(a, b);
    lemma_wrapped_far(stored_value(stored) + operands_sum(a), operands_sum(b));
}

proof fn lemma_wrapped_far(total: int, more: int)
    ensures
        wrapped(wrapped(total) + more) == wrapped(total + more),
{
    let range = 0x1_0000_0000_0000_0000int;
    let half = 0x8000_0000_0000_0000int;
    let k = (total + half) / range;
    lemma_fundamental_div_mod(total + half, range);
    let m = (wrapped(total) + more + half) / range;
    lemma_fundamental_div_mod(wrapped(total) + more + half, range);
    let r = (wrapped(total) + more + half) % range;
    assert(total + more + half == (k + m) * range + r) by (nonlinear_arith)
        requires
            total + half == range * k + (wrapped(total) + half),
            wrapped(total) + more + half == range * m + r,
    ;
    lemma_fundamental_div_mod_converse(total + more + half, range, k + m, r);
}

/// The counter after the operands.
pub fn counter_sum(existing_val: Option<&[u8]>, operands: &[Vec<u8>]) -> (r: i64)
    ensures
        r == counter_total(stored_view(existing_val), operand_views(operands@)),
{
    let mut result: i64 = match existing_val {
        Some(val) => match parse_i64(val) {
            Some(num) => num,
            None => 0,
        },
        None => 0,
    };
    let ghost stored = stored_value(stored_view(existing_val));
    let ghost all = operand_views(operands@);
    proof {
        lemma_wrapped_in_range(result);
        assert(all.subrange(0, 0) =~= Seq::<Seq<u8>>::empty());
    }
    let mut i: usize = 0;
    while i < operands.len()
        invariant
            i <= operands.len(),
            all == operand_views(operands@),
            stored == stored_value(stored_view(existing_val)),
            result == wrapped(stored + operands_sum(all.subrange(0, i as int))),
        decreases operands.len() - i,
    {
        let ghost done = all.subrange(0, i as int);
        let ghost next = all.subrange(0, i + 1);
        proof {
            assert(next.drop_last() =~= done);
            assert(next.last() == operands@[i as int]@);
        }
        match parse_i64(operands[i].as_slice()) {
            Some(operand) => {
                proof {
                    lemma_wrapped_step(stored + operands_sum(done), result, operand);
                }
                result = result.wrapping_add(operand);
            },
            None => {},
        }
        i += 1;
    }
    assert(all.subrange(0, i as int) =~= all);
    result
}

/// Merges a counter: the stored value and the operands, each read as decimal
/// text, are summed up, and the sum is written as decimal text.
///
/// The merge never fails: it always leaves a value.
pub fn counter_merge(_key: &[u8], existing_val: Option<&[u8]>, operands: &[Vec<u8>]) -> (r: Option<
    Vec<u8>,
>)
    ensures
        r matches Some(merged) && merged@ == counter_text(
            stored_view(existing_val),
            operand_views(operands@),
        ),
{
    Some(format_i64(counter_sum(existing_val, operands)))
}

} // verus!
