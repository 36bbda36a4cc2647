//! Handing out work units to concurrent workers through one shared atomic cursor.
//!
//! Each claim is a single `fetch_add`: the atomic's modification order gives the
//! claims the cursor values 0, 1, 2, ... (or 0, b, 2b, ... for byte offsets), one
//! value to each claim, whichever worker makes it. What a claim returns is decided
//! from that value alone.
use vstd::prelude::*;
use std::sync::atomic::{AtomicUsize, Ordering};
use crate::blocks::{
    WorkUnit, read_len_spec, unit_at, block_count_spec, block_offsets_spec, seeded_shuffle,
    shuffled_block_offsets, lemma_block_starts_inside,
};

verus! {

/// The unit that the claim which fetched `fetched` receives: the index itself while
/// it is below `total`, nothing after.
pub open spec fn claim_spec(fetched: nat, total: nat) -> Option<nat> {
    if fetched < total {
        Some(fetched)
    } else {
        None
    }
}

/// The decision of one claim, from the cursor value it fetched.
pub fn claim_index(fetched: usize, total: usize) -> (r: Option<usize>)
    ensures
        r matches Some(i) ==> claim_spec(fetched as nat, total as nat) == Some(i as nat),
        r is None <==> claim_spec(fetched as nat, total as nat) is None,
{
    if fetched < total {
        Some(fetched)
    } else {
        None
    }
}

/// Claims made in the cursor's order hand out each of the `total` indices exactly
/// once, and every claim after the first `total` finds the work exhausted.
pub proof fn lemma_claims_exactly_once(total: nat, claims: nat)
    ensures
        forall|i: nat| #![trigger claim_spec(i, total)]
            i < total && i < claims ==> claim_spec(i, total) == Some(i),
        forall|j: nat, k: nat|
            #![trigger claim_spec(j, total), claim_spec(k, total)]
            j < claims && k < claims && j != k && claim_spec(j, total) is Some
                ==> claim_spec(j, total) != claim_spec(k, total),
        forall|j: nat| #![trigger claim_spec(j, total)]
            total <= j ==> claim_spec(j, total) is None,
{
}

/// A shared cursor over `total` units, claimed by index.
pub struct Partitioner {
    cursor: AtomicUsize,
    total: usize,
}

impl Partitioner {
    pub closed spec fn total_spec(&self) -> nat {
        self.total as nat
    }

    /// A cursor at the first of `total` units.
    pub fn new(total: usize) -> (r: Partitioner)
        ensures
            r.total_spec() == total,
    {
        Partitioner { cursor: AtomicUsize::new(0), total }
    }

    pub fn total(&self) -> (r: usize)
        ensures
            r == self.total_spec(),
    {
        self.total
    }

    /// Claims the next unclaimed index, or nothing once all are claimed.
    /// Which index a call gets depends on the other claimers.
    pub fn claim(&self) -> (r: Option<usize>)
        ensures
            r matches Some(i) ==> i < self.total_spec(),
    {
        let fetched = self.cursor.fetch_add(1, Ordering::Relaxed);
        claim_index(fetched, self.total)
    }
}

/// The read that a claim of the sequential cursor receives from the byte offset it
/// fetched: the block there, clamped to the file, or nothing past the end.
pub fn claim_unit(fetched: usize, block: usize, size: usize) -> (r: Option<WorkUnit>)
    ensures
        r is Some <==> fetched < size,
        r matches Some(u) ==> u.offset == fetched && u.len == read_len_spec(
            fetched as int,
            block as int,
            size as int,
        ),
{
    if fetched < size {
        Some(unit_at(fetched, block, size))
    } else {
        None
    }
}

/// A shared cursor over the bytes of a file, advanced a block at a time.
pub struct OffsetCursor {
    cursor: AtomicUsize,
    block: usize,
    size: usize,
}

impl OffsetCursor {
    pub closed spec fn block_spec(&self) -> nat {
        self.block as nat
    }

    pub closed spec fn size_spec(&self) -> nat {
        self.size as nat
    }

    /// A cursor at the start of a file of `size` bytes, read in blocks of `block`.
    pub fn new(size: usize, block: usize) -> (r: OffsetCursor)
        requires
            block > 0,
        ensures
            r.block_spec() == block,
            r.size_spec() == size,
    {
        OffsetCursor { cursor: AtomicUsize::new(0), block, size }
    }

    /// Claims the next block as a read, or nothing once the cursor has passed the end.
    pub fn claim(&self) -> (r: Option<WorkUnit>)
        ensures
            r matches Some(u) ==> u.offset < self.size_spec() && u.len == read_len_spec(
                u.offset as int,
                self.block_spec() as int,
                self.size_spec() as int,
            ),
    {
        let fetched = self.cursor.fetch_add(self.block, Ordering::Relaxed);
        claim_unit(fetched, self.block, self.size)
    }
}

/// The random-access workload: the file's block offsets, shuffled once at setup, and a
/// shared cursor that hands them out by index.
pub struct ShuffledReads {
    units: Partitioner,
    offsets: Vec<usize>,
    block: usize,
    size: usize,
}

impl ShuffledReads {
    pub closed spec fn offsets_spec(&self) -> Seq<usize> {
        self.offsets@
    }

    pub closed spec fn block_spec(&self) -> nat {
        self.block as nat
    }

    pub closed spec fn size_spec(&self) -> nat {
        self.size as nat
    }

    /// One cursor index per offset, and every offset inside the file.
    pub closed spec fn wf(&self) -> bool {
        &&& self.units.total == self.offsets@.len()
        &&& forall|i: int| 0 <= i < self.offsets@.len() ==> self.offsets@[i] < self.size
    }

    /// Plans the reads of a file of `size` bytes in blocks of `block`, in the order of a
    /// shuffle seeded with `seed`.
    pub fn new(size: usize, block: usize, seed: u64) -> (r: ShuffledReads)
        requires
            block > 0,
        ensures
            r.wf(),
            r.offsets_spec() == seeded_shuffle(block_offsets_spec(size as nat, block as nat), seed),
            r.offsets_spec().to_multiset() == block_offsets_spec(
                size as nat,
                block as nat,
            ).to_multiset(),
            r.offsets_spec().len() == block_count_spec(size as nat, block as nat),
            r.block_spec() == block,
            r.size_spec() == size,
    {
        let offsets = shuffled_block_offsets(size, block, seed);
        proof {
            let plain = block_offsets_spec(size as nat, block as nat);
            broadcast use vstd::seq_lib::group_to_multiset_ensures;
            assert(offsets@.len() == offsets@.to_multiset().len());
            assert(plain.len() == plain.to_multiset().len());
            assert forall|i: int| 0 <= i < offsets@.len() implies offsets@[i] < size by {
                let x = offsets@[i];
                assert(offsets@.contains(x));
                assert(offsets@.to_multiset().count(x) > 0);
                assert(plain.contains(x));
                let j = choose|j: int| 0 <= j < plain.len() && plain[j] == x;
                lemma_block_starts_inside(j, size as nat, block as nat);
            }
        }
        ShuffledReads::build(offsets, block, size)
    }

    fn build(offsets: Vec<usize>, block: usize, size: usize) -> (r: ShuffledReads)
        requires
            forall|i: int| 0 <= i < offsets@.len() ==> offsets@[i] < size,
        ensures
            r.wf(),
            r.offsets_spec() == offsets@,
            r.block_spec() == block,
            r.size_spec() == size,
    {
        let n = offsets.len();
        ShuffledReads { units: Partitioner::new(n), offsets, block, size }
    }

    /// Plans reads of the blocks that start at `offsets`, in that order, over a file of
    /// `size` bytes; nothing where an offset lies past the end of the file.
    pub fn from_offsets(offsets: Vec<usize>, block: usize, size: usize) -> (r: Option<ShuffledReads>)
        ensures
            r is Some <==> forall|i: int| 0 <= i < offsets@.len() ==> offsets@[i] < size,
            r matches Some(p) ==> {
                &&& p.wf()
                &&& p.offsets_spec() == offsets@
                &&& p.block_spec() == block
                &&& p.size_spec() == size
            },
    {
        let mut i: usize = 0;
        while i < offsets.len()
            invariant
                i <= offsets@.len(),
                forall|j: int| 0 <= j < i ==> offsets@[j] < size,
            decreases offsets@.len() - i,
        {
            if offsets[i] >= size {
                return None;
            }
            i = i + 1;
        }
        Some(ShuffledReads::build(offsets, block, size))
    }

    /// Number of reads in the plan.
    pub fn unit_count(&self) -> (r: usize)
        ensures
            r == self.offsets_spec().len(),
    {
        self.offsets.len()
    }

    /// Claims the next planned read, or nothing once all are claimed.
    /// Which read a call gets depends on the other claimers.
    pub fn claim(&self) -> (r: Option<WorkUnit>)
        requires
            self.wf(),
        ensures
            r matches Some(u) ==> exists|i: int|
                0 <= i < self.offsets_spec().len() && #[trigger] planned_read_spec(
                    i as nat,
                    self.offsets_spec(),
                    self.block_spec(),
                    self.size_spec(),
                ) == Some(u),
    {
        let fetched = self.units.cursor.fetch_add(1, Ordering::Relaxed);
        let r = claim_planned(fetched, &self.offsets, self.block, self.size);
        proof {
            if r is Some {
                let i = fetched as int;
                assert(0 <= i < self.offsets_spec().len());
                assert(planned_read_spec(
                    i as nat,
                    self.offsets_spec(),
                    self.block_spec(),
                    self.size_spec(),
                ) == r);
            }
        }
        r
    }
}

/// The read that the claim which fetched `fetched` receives from the plan `offsets`:
/// the planned block at that index, clamped to the file, or nothing past the plan.
pub open spec fn planned_read_spec(fetched: nat, offsets: Seq<usize>, block: nat, size: nat) -> Option<
    WorkUnit,
> {
    if fetched < offsets.len() {
        Some(
            WorkUnit {
                offset: offsets[fetched as int],
                len: read_len_spec(offsets[fetched as int] as int, block as int, size as int) as usize,
            },
        )
    } else {
        None
    }
}

/// The decision of one claim on a plan, from the cursor value it fetched.
pub fn claim_planned(fetched: usize, offsets: &Vec<usize>, block: usize, size: usize) -> (r: Option<
    WorkUnit,
>)
    requires
        forall|i: int| 0 <= i < offsets@.len() ==> offsets@[i] < size,
    ensures
        r is Some <==> fetched < offsets@.len(),
        r matches Some(u) ==> u.offset == offsets@[fetched as int] && u.len == read_len_spec(
            u.offset as int,
            block as int,
            size as int,
        ),
        r == planned_read_spec(fetched as nat, offsets@, block as nat, size as nat),
{
    match claim_index(fetched, offsets.len()) {
        Some(i) => Some(unit_at(offsets[i], block, size)),
        None => None,
    }
}

/// Claims made in the cursor's order read each planned offset exactly once, the k-th
/// claim the k-th offset, and every claim after the plan is exhausted finds nothing.
pub proof fn lemma_plan_read_exactly_once(offsets: Seq<usize>, block: nat, size: nat)
    ensures
        forall|k: nat| #![trigger planned_read_spec(k, offsets, block, size)]
            k < offsets.len() ==> (planned_read_spec(k, offsets, block, size) matches Some(u)
                && u.offset == offsets[k as int]),
        forall|k: nat| #![trigger planned_read_spec(k, offsets, block, size)]
            k >= offsets.len() ==> planned_read_spec(k, offsets, block, size) is None,
        Seq::new(offsets.len(), |k: int| planned_read_spec(k as nat, offsets, block, size)->Some_0.offset)
            == offsets,
{
    assert(Seq::new(offsets.len(), |k: int| planned_read_spec(k as nat, offsets, block, size)->Some_0.offset)
        =~= offsets);
}

} // verus!
