//! Address arithmetic for 4 KiB pages and level-4 page-table slots: frame
//! alignment, the level-4 index of a virtual address, and the canonical
//! base address of a level-4 slot.

use vstd::prelude::*;

verus! {

use vstd::arithmetic::div_mod::{lemma_fundamental_div_mod, lemma_mod_multiples_basic};
use vstd::arithmetic::power2::{
    lemma2_to64,
    lemma2_to64_rest,
    lemma_pow2_adds,
    lemma_pow2_pos,
    lemma_pow2_strictly_increases,
    pow2,
};

/// True when `x` is a power of two.
pub open spec fn power_of_two(x: u64) -> bool {
    exists|k: nat| k < 64 && x == pow2(k)
}

/// The largest multiple of 4096 at or below `a`.
pub open spec fn page_base(a: u64) -> u64 {
    (a - a % 4096) as u64
}

/// The smallest multiple of 4096 at or above `a`, as an unbounded
/// integer (it exceeds `u64::MAX` for the topmost addresses).
pub open spec fn page_round_up(a: u64) -> int {
    if a % 4096 == 0 {
        a as int
    } else {
        a - a % 4096 + 4096
    }
}

/// The level-4 page-table index (0..512) that translates address `a`.
pub open spec fn p4_index_of(a: u64) -> u64 {
    (a >> 39) & 0x1ff
}

/// The lowest canonical virtual address translated through level-4 slot
/// `i`: slot spans are 512 GiB wide, and slots 256..512 lie in the upper,
/// sign-extended half of the address space.
pub open spec fn slot_base(i: u16) -> u64
    recommends
        i < 512,
{
    if i < 256 {
        ((i as u64) * 0x80_0000_0000) as u64
    } else {
        (0xffff_0000_0000_0000 + (i as u64) * 0x80_0000_0000) as u64
    }
}

/// The alignments this bootloader asks for are powers of two.
pub proof fn lemma_common_alignments()
    ensures
        power_of_two(8),
        power_of_two(16),
        power_of_two(4096),
{
    lemma2_to64();
    assert(pow2(3) == 8 && pow2(4) == 16 && pow2(12) == 4096);
}

/// Rounding down to a frame boundary is monotone.
pub proof fn lemma_page_base_monotone(a: u64, b: u64)
    requires
        a <= b,
    ensures
        page_base(a) <= page_base(b),
{
    lemma_fundamental_div_mod(a as int, 4096);
    lemma_fundamental_div_mod(b as int, 4096);
    vstd::arithmetic::div_mod::lemma_div_is_ordered(a as int, b as int, 4096);
}

/// Rounding up lands on a frame boundary less than one frame above `a`.
pub proof fn lemma_page_round_up_aligned(a: u64)
    ensures
        page_round_up(a) % 4096 == 0,
        a <= page_round_up(a) < a + 4096,
{
    lemma_fundamental_div_mod(a as int, 4096);
    if a % 4096 == 0 {
        lemma_mod_multiples_basic(a as int / 4096, 4096);
    } else {
        lemma_mod_multiples_basic(a as int / 4096 + 1, 4096);
    }
}

/// Rounds `a` down to the start of its page frame.
pub fn align_down_frame(a: u64) -> (r: u64)
    ensures
        r == page_base(a),
        r % 4096 == 0,
        r <= a < r + 4096,
{
    proof {
        assert(a & 0xffff_ffff_ffff_f000 == (a - a % 4096) as u64 && (a & 0xffff_ffff_ffff_f000)
            % 4096 == 0 && (a & 0xffff_ffff_ffff_f000) <= a < (a & 0xffff_ffff_ffff_f000) + 4096)
            by (bit_vector);
    }
    a & 0xffff_ffff_ffff_f000
}

/// Rounds `a` up to a page-frame boundary; `None` when no such boundary
/// exists at or above `a` in the 64-bit address space.
pub fn align_up_frame(a: u64) -> (r: Option<u64>)
    ensures
        r matches Some(c) ==> c == page_round_up(a),
        r is None <==> page_round_up(a) > u64::MAX,
{
    let low = align_down_frame(a);
    if low == a {
        Some(a)
    } else if low <= 0xffff_ffff_ffff_e000 {
        Some(low + 4096)
    } else {
        None
    }
}

/// The level-4 index of virtual address `a`.
pub fn p4_index(a: u64) -> (r: u16)
    ensures
        r == p4_index_of(a),
        r < 512,
{
    proof {
        assert((a >> 39) & 0x1ff < 512) by (bit_vector);
    }
    ((a >> 39) & 0x1ff) as u16
}

/// The canonical base address of level-4 slot `i`.
pub fn slot_base_address(i: u16) -> (r: u64)
    requires
        i < 512,
    ensures
        r == slot_base(i),
        r % 4096 == 0,
{
    let wide = i as u64;
    let base = wide << 39;
    proof {
        assert(wide < 256 ==> wide << 39 == (wide * 0x80_0000_0000) as u64) by (bit_vector);
        assert(256 <= wide < 512 ==> (wide << 39) | 0xffff_0000_0000_0000 == (0xffff_0000_0000_0000
            + wide * 0x80_0000_0000) as u64) by (bit_vector)
            requires
                wide < 512,
        ;
        assert((wide << 39) % 4096 == 0 && ((wide << 39) | 0xffff_0000_0000_0000) % 4096 == 0)
            by (bit_vector);
    }
    if i < 256 {
        base
    } else {
        base | 0xffff_0000_0000_0000
    }
}

/// A slot base address is aligned to every power of two up to the slot
/// span itself (512 GiB).
pub proof fn lemma_slot_base_aligned(i: u16, align: u64)
    requires
        i < 512,
        power_of_two(align),
        align <= 0x80_0000_0000,
    ensures
        slot_base(i) % align == 0,
{
    let b = slot_base(i);
    assert(b % 0x80_0000_0000 == 0) by (bit_vector)
        requires
            i < 512,
            b == slot_base(i),
    ;
    let k = choose|k: nat| k < 64 && align == pow2(k);
    assert(pow2(39) == 0x80_0000_0000) by {
        lemma2_to64();
        lemma2_to64_rest();
    }
    if k > 39 {
        lemma_pow2_strictly_increases(39, k);
        assert(false);
    }
    lemma_pow2_pos(k);
    lemma_pow2_adds(k, (39 - k) as nat);
    assert(pow2(k) * pow2((39 - k) as nat) == 0x80_0000_0000);
    let q = b as int / 0x80_0000_0000;
    lemma_fundamental_div_mod(b as int, 0x80_0000_0000);
    assert(b == q * 0x80_0000_0000);
    assert(q * (pow2(k) * pow2((39 - k) as nat)) == (q * pow2((39 - k) as nat)) * pow2(k))
        by (nonlinear_arith);
    lemma_mod_multiples_basic(q * pow2((39 - k) as nat), pow2(k) as int);
}

/// No slot base lies above the base of the topmost slot.
pub proof fn lemma_slot_base_bound(i: u16)
    requires
        i < 512,
    ensures
        slot_base(i) <= 0xffff_ff80_0000_0000,
{
    assert(slot_base(i) <= 0xffff_ff80_0000_0000) by (bit_vector)
        requires
            i < 512,
    ;
}

/// Distinct level-4 slots cover disjoint 512 GiB virtual spans.
pub proof fn lemma_slot_spans_disjoint(i: u16, j: u16)
    requires
        i < 512,
        j < 512,
        i != j,
    ensures
        slot_base(i) + 0x80_0000_0000 <= slot_base(j) || slot_base(j) + 0x80_0000_0000 <= slot_base(
            i,
        ),
{
    assert(i < j ==> slot_base(i) + 0x80_0000_0000 <= slot_base(j)) by (bit_vector)
        requires
            i < 512,
            j < 512,
    ;
    assert(j < i ==> slot_base(j) + 0x80_0000_0000 <= slot_base(i)) by (bit_vector)
        requires
            i < 512,
            j < 512,
    ;
}

} // verus!
