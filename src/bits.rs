use vstd::prelude::*;

verus! {

/// The widest number of component types a membership mask can tell apart.
pub const MASK_BITS: usize = 32;

/// The mask bit assigned to the component type at registry position `c`.
pub open spec fn bit(c: int) -> u32 {
    1u32 << (c as u32)
}

/// Whether mask `m` has the bit of registry position `c`.
pub open spec fn has_bit(m: u32, c: int) -> bool {
    m & bit(c) == bit(c)
}

/// Whether an entity with mask `m` owns every type that query mask `q` asks for.
pub open spec fn covers(m: u32, q: u32) -> bool {
    m & q == q
}

pub proof fn lemma_set_bit(m: u32, i: u32, j: u32)
    requires
        i < 32,
        j < 32,
    ensures
        (m | (1u32 << i)) & (1u32 << j) == (1u32 << j) <==> (m & (1u32 << j) == (1u32 << j) || i == j),
{
    assert((m | (1u32 << i)) & (1u32 << j) == (1u32 << j) <==> (m & (1u32 << j) == (1u32 << j) || i == j))
        by (bit_vector)
        requires i < 32u32, j < 32u32;
}

pub proof fn lemma_zero_has_no_bit(j: u32)
    requires
        j < 32,
    ensures
        (0u32 & (1u32 << j)) != (1u32 << j),
{
    assert((0u32 & (1u32 << j)) != (1u32 << j)) by (bit_vector)
        requires j < 32u32;
}

pub proof fn lemma_covers_union(m: u32, q: u32, b: u32)
    ensures
        (m & (q | b) == (q | b)) <==> (m & q == q && m & b == b),
{
    assert((m & (q | b) == (q | b)) <==> (m & q == q && m & b == b)) by (bit_vector);
}

pub proof fn lemma_covers_zero(m: u32)
    ensures
        m & 0u32 == 0u32,
{
    assert(m & 0u32 == 0u32) by (bit_vector);
}

} // verus!
