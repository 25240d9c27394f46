//! Tracks which of the 512 level-4 page-table slots of the kernel's
//! virtual address space are already claimed, and hands out free slots
//! first-fit for new mappings.

use vstd::prelude::*;

verus! {

use crate::addr::{
    lemma_slot_base_aligned,
    lemma_slot_spans_disjoint,
    p4_index,
    p4_index_of,
    power_of_two,
    slot_base,
    slot_base_address,
};

/// The first unused slot index at or after `i`, or 512 when every slot
/// from `i` on is used.
pub open spec fn first_free_from(s: Seq<bool>, i: int) -> int
    decreases 512 - i,
{
    if i < 0 || i >= 512 {
        512
    } else if !s[i] {
        i
    } else {
        first_free_from(s, i + 1)
    }
}

/// The first unused slot index, or 512 when every slot is used.
pub open spec fn first_free(s: Seq<bool>) -> int {
    first_free_from(s, 0)
}

/// How many of the first `n` slots are used.
pub open spec fn count_used_upto(s: Seq<bool>, n: int) -> int
    decreases n,
{
    if n <= 0 {
        0
    } else {
        count_used_upto(s, n - 1) + if s[n - 1] {
            1int
        } else {
            0int
        }
    }
}

/// How many slots of the 512-slot table are used.
pub open spec fn count_used(s: Seq<bool>) -> int {
    count_used_upto(s, 512)
}

/// The slot table after `n` first-fit claims (claims beyond exhaustion
/// change nothing).
pub open spec fn claim_n(s: Seq<bool>, n: nat) -> Seq<bool>
    decreases n,
{
    if n == 0 {
        s
    } else {
        let t = claim_n(s, (n - 1) as nat);
        if first_free(t) < 512 {
            t.update(first_free(t), true)
        } else {
            t
        }
    }
}

/// Keeps track of used entries in a level 4 page table; useful for
/// finding a free virtual memory block, e.g. for mapping additional data.
#[derive(Debug)]
pub struct UsedLevel4Entries {
    /// Whether each of the 512 top-level entries is in use.
    pub entry_state: Vec<bool>,
}

impl View for UsedLevel4Entries {
    type V = Seq<bool>;

    open spec fn view(&self) -> Seq<bool> {
        self.entry_state@
    }
}

impl UsedLevel4Entries {
    /// The table always holds exactly one flag per level-4 slot.
    pub open spec fn wf(&self) -> bool {
        self@.len() == 512
    }

    /// A fresh tracker: every slot unused except slot 0, which is
    /// reserved for low, identity-mapped memory.
    pub fn new() -> (r: Self)
        ensures
            r.wf(),
            r@[0],
            forall|i: int| 1 <= i < 512 ==> !r@[i],
    {
        let mut entry_state: Vec<bool> = Vec::new();
        entry_state.push(true);
        let mut i: usize = 1;
        while i < 512
            invariant
                1 <= i <= 512,
                entry_state@.len() == i,
                entry_state@[0],
                forall|j: int| 1 <= j < i ==> !entry_state@[j],
            decreases 512 - i,
        {
            entry_state.push(false);
            i = i + 1;
        }
        UsedLevel4Entries { entry_state }
    }

    /// Marks one level-4 slot as used.
    pub fn mark_p4_index_as_used(&mut self, p4_index: u16)
        requires
            old(self).wf(),
            p4_index < 512,
        ensures
            final(self).wf(),
            final(self)@ == old(self)@.update(p4_index as int, true),
    {
        self.entry_state.set(p4_index as usize, true);
    }

    /// Marks all slots touched by the virtual range
    /// `[address, address + size)` as used.
    #[verifier::loop_isolation(false)]
    pub fn mark_range_as_used(&mut self, address: u64, size: u64)
        requires
            old(self).wf(),
            size > 0,
            address + size - 1 <= u64::MAX,
        ensures
            final(self).wf(),
            final(self)@ == marked_range(old(self)@, address, size),
    {
        let last = address + (size - 1);
        let lo = p4_index(address);
        let hi = p4_index(last);
        let ghost orig = self@;
        if lo <= hi {
            let mut idx: u16 = lo;
            while idx <= hi
                invariant
                    lo <= idx <= hi + 1,
                    hi < 512,
                    self.wf(),
                    forall|j: int|
                        0 <= j < 512 ==> self@[j] == (orig[j] || (lo <= j < idx)),
                decreases hi + 1 - idx,
            {
                self.mark_p4_index_as_used(idx);
                idx = idx + 1;
            }
        }
        proof {
            let m = marked_range(orig, address, size);
            assert forall|j: int| 0 <= j < 512 implies self@[j] == m[j] by {
                assert(m[j] == (orig[j] || (lo <= j <= hi)));
            }
            assert(self@ =~= m);
        }
    }

    /// Returns the first unused level-4 slot and marks it as used, or
    /// `None` when every slot is already used.  The returned slot was
    /// not previously marked.
    #[verifier::loop_isolation(false)]
    pub fn get_free_entry(&mut self) -> (r: Option<u16>)
        requires
            old(self).wf(),
        ensures
            final(self).wf(),
            ({
                let ff = first_free(old(self)@);
                if ff < 512 {
                    &&& r == Some(ff as u16)
                    &&& !old(self)@[ff]
                    &&& final(self)@ == old(self)@.update(ff, true)
                } else {
                    &&& r is None
                    &&& final(self)@ == old(self)@
                }
            }),
    {
        let ghost orig = self@;
        let mut i: usize = 0;
        while i < 512
            invariant
                self.wf(),
                self@ == orig,
                0 <= i <= 512,
                forall|j: int| 0 <= j < i ==> orig[j],
            decreases 512 - i,
        {
            if !self.entry_state[i] {
                proof {
                    lemma_first_free_skip(orig, i as int);
                    assert(first_free_from(orig, i as int) == i as int);
                    assert(first_free(orig) == i as int);
                }
                self.entry_state.set(i, true);
                proof {
                    assert(self@ =~= orig.update(i as int, true));
                }
                return Some(i as u16);
            }
            i = i + 1;
        }
        proof {
            lemma_first_free_skip(orig, 512);
        }
        None
    }

    /// Marks the virtual address range of every memory-occupying segment
    /// as used, shifted by `virtual_address_offset`.
    #[verifier::loop_isolation(false)]
    pub fn mark_segments(
        &mut self,
        segments: &Vec<crate::loader::ProgramSegment>,
        virtual_address_offset: u64,
    )
        requires
            old(self).wf(),
            forall|k: int|
                0 <= k < segments@.len() ==> ((#[trigger] segments@[k]).mem_size > 0
                    ==> segments@[k].virtual_addr + virtual_address_offset + segments@[k].mem_size
                    - 1 <= u64::MAX),
        ensures
            final(self).wf(),
            final(self)@ == marked_segments(old(self)@, segments@, virtual_address_offset),
    {
        let mut i: usize = 0;
        while i < segments.len()
            invariant
                0 <= i <= segments@.len(),
                self.wf(),
                self@ == marked_segments_upto(
                    old(self)@,
                    segments@,
                    virtual_address_offset,
                    i as int,
                ),
            decreases segments@.len() - i,
        {
            let seg = segments[i];
            if seg.mem_size > 0 {
                self.mark_range_as_used(seg.virtual_addr + virtual_address_offset, seg.mem_size);
            }
            i = i + 1;
        }
    }

    /// Claims a fresh level-4 slot and returns its base virtual address,
    /// or `None` when no slot is free.  The whole 512 GiB slot span is
    /// claimed no matter how small `size` is; the base is aligned to
    /// `alignment` for every feasible alignment (a slot base is a
    /// multiple of the 512 GiB span size).
    pub fn get_free_address(&mut self, size: u64, alignment: u64) -> (r: Option<u64>)
        requires
            old(self).wf(),
            power_of_two(alignment),
        ensures
            final(self).wf(),
            ({
                let ff = first_free(old(self)@);
                if ff < 512 {
                    &&& r == Some(slot_base(ff as u16))
                    &&& final(self)@ == old(self)@.update(ff, true)
                    &&& alignment <= 0x80_0000_0000 ==> slot_base(ff as u16) % alignment == 0
                } else {
                    &&& r is None
                    &&& final(self)@ == old(self)@
                }
            }),
    {
        let _ = size;
        match self.get_free_entry() {
            Some(idx) => {
                proof {
                    lemma_first_free_properties(old(self)@);
                    assert(idx < 512);
                    if alignment <= 0x80_0000_0000 {
                        lemma_slot_base_aligned(idx, alignment);
                    }
                }
                Some(slot_base_address(idx))
            },
            None => None,
        }
    }
}

/// The slot table after marking the ranges of the first `n` segments
/// (those that occupy memory), shifted by `off`.
pub open spec fn marked_segments_upto(
    s: Seq<bool>,
    segs: Seq<crate::loader::ProgramSegment>,
    off: u64,
    n: int,
) -> Seq<bool>
    decreases n,
{
    if n <= 0 {
        s
    } else {
        let prev = marked_segments_upto(s, segs, off, n - 1);
        let seg = segs[n - 1];
        if seg.mem_size > 0 {
            marked_range(prev, (seg.virtual_addr + off) as u64, seg.mem_size)
        } else {
            prev
        }
    }
}

/// The slot table after marking the ranges of all memory-occupying
/// segments, shifted by `off`.
pub open spec fn marked_segments(
    s: Seq<bool>,
    segs: Seq<crate::loader::ProgramSegment>,
    off: u64,
) -> Seq<bool> {
    marked_segments_upto(s, segs, off, segs.len() as int)
}

/// The slot table after marking every slot touched by
/// `[address, address + size)`, `size > 0`.
pub open spec fn marked_range(s: Seq<bool>, address: u64, size: u64) -> Seq<bool> {
    Seq::new(
        s.len(),
        |i: int| s[i] || (p4_index_of(address) <= i <= p4_index_of((address + size - 1) as u64)),
    )
}

/// Scanning for the first free slot may start past a prefix of used
/// slots without changing the answer.
pub proof fn lemma_first_free_skip(s: Seq<bool>, i: int)
    requires
        0 <= i <= 512,
        forall|j: int| 0 <= j < i ==> s[j],
    ensures
        first_free(s) == first_free_from(s, i),
    decreases i,
{
    if i > 0 {
        lemma_first_free_skip(s, i - 1);
    }
}

/// Basic shape of the first-fit scan: the result is in `0..=512`, points
/// at an unused slot when one exists, everything before it is used, and
/// 512 means the table is full.
pub proof fn lemma_first_free_properties(s: Seq<bool>)
    ensures
        0 <= first_free(s) <= 512,
        first_free(s) < 512 ==> !s[first_free(s)],
        forall|j: int| 0 <= j < first_free(s) ==> s[j],
    decreases 512int,
{
    lemma_first_free_from_properties(s, 0);
}

proof fn lemma_first_free_from_properties(s: Seq<bool>, i: int)
    requires
        0 <= i <= 512,
    ensures
        i <= first_free_from(s, i) <= 512,
        first_free_from(s, i) < 512 ==> !s[first_free_from(s, i)],
        forall|j: int| i <= j < first_free_from(s, i) ==> s[j],
    decreases 512 - i,
{
    if i < 512 && s[i] {
        lemma_first_free_from_properties(s, i + 1);
    }
}

/// Setting an unused slot raises the used count by exactly one.
pub proof fn lemma_count_used_update(s: Seq<bool>, i: int)
    requires
        s.len() == 512,
        0 <= i < 512,
        !s[i],
    ensures
        count_used(s.update(i, true)) == count_used(s) + 1,
{
    lemma_count_used_upto_update(s, i, 512);
}

proof fn lemma_count_used_upto_update(s: Seq<bool>, i: int, n: int)
    requires
        s.len() == 512,
        0 <= i < 512,
        !s[i],
        0 <= n <= 512,
    ensures
        count_used_upto(s.update(i, true), n) == count_used_upto(s, n) + if i < n {
            1int
        } else {
            0int
        },
    decreases n,
{
    if n > 0 {
        lemma_count_used_upto_update(s, i, n - 1);
    }
}

proof fn lemma_count_used_upto_bounds(s: Seq<bool>, n: int)
    requires
        0 <= n <= s.len(),
    ensures
        0 <= count_used_upto(s, n) <= n,
        count_used_upto(s, n) == n <==> (forall|j: int| 0 <= j < n ==> s[j]),
    decreases n,
{
    if n > 0 {
        lemma_count_used_upto_bounds(s, n - 1);
    }
}

/// A free slot exists exactly when fewer than 512 slots are used.
pub proof fn lemma_first_free_iff_not_full(s: Seq<bool>)
    requires
        s.len() == 512,
    ensures
        first_free(s) < 512 <==> count_used(s) < 512,
        count_used(s) <= 512,
{
    lemma_first_free_properties(s);
    lemma_count_used_upto_bounds(s, 512);
}

proof fn lemma_claim_n_count(s: Seq<bool>, n: nat)
    requires
        s.len() == 512,
        n <= 512 - count_used(s),
        count_used(s) >= 0,
    ensures
        claim_n(s, n).len() == 512,
        count_used(claim_n(s, n)) == count_used(s) + n,
    decreases n,
{
    lemma_count_used_upto_bounds(s, 512);
    if n > 0 {
        lemma_claim_n_count(s, (n - 1) as nat);
        let t = claim_n(s, (n - 1) as nat);
        lemma_first_free_iff_not_full(t);
        lemma_first_free_properties(t);
        lemma_count_used_update(t, first_free(t));
    }
}

/// Exhaustion of the slot table: starting from any table state, exactly
/// `512 - count_used` first-fit claims succeed, and the claim after
/// those fails.
pub proof fn lemma_claim_free_slot_exhausts(s: Seq<bool>)
    requires
        s.len() == 512,
    ensures
        forall|j: nat|
            j < 512 - count_used(s) ==> first_free(#[trigger] claim_n(s, j)) < 512,
        first_free(claim_n(s, (512 - count_used(s)) as nat)) == 512,
{
    lemma_count_used_upto_bounds(s, 512);
    assert forall|j: nat| j < 512 - count_used(s) implies first_free(
        #[trigger] claim_n(s, j),
    ) < 512 by {
        lemma_claim_n_count(s, j);
        lemma_first_free_iff_not_full(claim_n(s, j));
    }
    let full = (512 - count_used(s)) as nat;
    lemma_claim_n_count(s, full);
    lemma_first_free_iff_not_full(claim_n(s, full));
    lemma_first_free_properties(claim_n(s, full));
}

/// Two successive successful first-fit claims return distinct slots
/// whose 512 GiB spans do not overlap.
pub proof fn lemma_successive_claims_disjoint(s: Seq<bool>)
    requires
        s.len() == 512,
        first_free(s) < 512,
        first_free(s.update(first_free(s), true)) < 512,
    ensures
        first_free(s) != first_free(s.update(first_free(s), true)),
        ({
            let i = first_free(s) as u16;
            let j = first_free(s.update(first_free(s), true)) as u16;
            slot_base(i) + 0x80_0000_0000 <= slot_base(j) || slot_base(j) + 0x80_0000_0000
                <= slot_base(i)
        }),
{
    let i = first_free(s);
    let t = s.update(i, true);
    let j = first_free(t);
    lemma_first_free_properties(s);
    lemma_first_free_properties(t);
    assert(!t[j]);
    assert(t[i]);
    lemma_slot_spans_disjoint(i as u16, j as u16);
}

} // verus!
