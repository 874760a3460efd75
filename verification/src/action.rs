use vstd::prelude::*;

verus! {

/// Action bit granting reads of a resource.
pub const READ: u16 = 1;

/// Action bit granting creation of a resource.
pub const CREATE: u16 = 2;

/// Action bit granting updates of a resource.
pub const UPDATE: u16 = 4;

/// Action bit granting deletion of a resource.
pub const DELETE: u16 = 8;

/// The three write bits (CREATE, UPDATE, DELETE) together.
pub const WRITE_MASK: u16 = 14;

/// All four recognised action bits together.
pub const ACTION_MASK: u16 = 15;

/// True when every bit of `bits` is also set in `action`.
pub open spec fn has_bits(action: u16, bits: u16) -> bool {
    action & bits == bits
}

/// True when bit `i` (counting from the least significant) is set in `v`.
pub open spec fn bit_set(v: u16, i: u16) -> bool {
    (v >> i) & 1u16 == 1u16
}

/// A mask is read-only when, restricted to the four recognised bits, it is
/// exactly READ: the read bit set and none of the write bits.
pub open spec fn spec_is_readonly(action: u16) -> bool {
    action & ACTION_MASK == READ
}

/// A mask counts as full write only when all three of CREATE, UPDATE and
/// DELETE are set at once.
pub open spec fn spec_is_write(action: u16) -> bool {
    has_bits(action, WRITE_MASK)
}

/// The full-write predicate holds exactly when each of the CREATE, UPDATE
/// and DELETE bits is set on its own.
pub proof fn lemma_write_is_three_bits(action: u16)
    ensures
        spec_is_write(action) <==> (has_bits(action, CREATE) && has_bits(action, UPDATE)
            && has_bits(action, DELETE)),
{
    assert((action & 14u16 == 14u16) <==> (action & 2u16 == 2u16 && action & 4u16 == 4u16
        && action & 8u16 == 8u16)) by (bit_vector);
}

/// Among masks that use only the four recognised bits, read-only means the
/// mask is precisely READ.
pub proof fn lemma_readonly_iff_read(action: u16)
    requires
        action < 16,
    ensures
        spec_is_readonly(action) <==> action == READ,
{
    assert(action < 16 ==> ((action & 15u16 == 1u16) <==> action == 1u16)) by (bit_vector);
}

} // verus!
