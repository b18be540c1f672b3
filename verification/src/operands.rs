//! What a merge is handed: the stored value, if there is one, and the
//! operands in the order in which they were written.

use vstd::prelude::*;

verus! {

/// The operands as byte sequences, in order.
pub open spec fn operand_views(operands: Seq<Vec<u8>>) -> Seq<Seq<u8>> {
    operands.map_values(|operand: Vec<u8>| operand@)
}

/// The stored value as a byte sequence, where there is one.
pub open spec fn stored_view(existing: Option<&[u8]>) -> Option<Seq<u8>> {
    match existing {
        Some(bytes) => Some(bytes@),
        None => None,
    }
}

} // verus!
