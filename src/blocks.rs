//! Splitting a file into fixed-size blocks, and the reads that cover them.
use vstd::prelude::*;
use vstd::arithmetic::div_mod::lemma_fundamental_div_mod;
use rand::rngs::StdRng;
use rand::seq::SliceRandom;
use rand::SeedableRng;

verus! {

/// One read of the file: where it starts and how many bytes it covers.
#[derive(Clone, Copy, Debug, PartialEq, Eq, Structural)]
pub struct WorkUnit {
    pub offset: usize,
    pub len: usize,
}

/// Number of blocks of `block` bytes that cover `size` bytes (the last may be short).
pub open spec fn block_count_spec(size: nat, block: nat) -> nat
    recommends
        block > 0,
{
    if size % block == 0 {
        size / block
    } else {
        size / block + 1
    }
}

/// Bytes read by the block that starts at `offset`: a whole block, or what is left.
pub open spec fn read_len_spec(offset: int, block: int, size: int) -> int {
    if block <= size - offset {
        block
    } else {
        size - offset
    }
}

/// Start offsets of the blocks, in file order.
pub open spec fn block_offsets_spec(size: nat, block: nat) -> Seq<usize> {
    Seq::new(block_count_spec(size, block), |i: int| (i * block) as usize)
}

/// A block index below the count starts inside the file.
pub proof fn lemma_block_starts_inside(i: int, size: nat, block: nat)
    requires
        block > 0,
        0 <= i < block_count_spec(size, block),
    ensures
        0 <= i * block < size,
{
    lemma_fundamental_div_mod(size as int, block as int);
    let q = size as int / block as int;
    let r = size as int % block as int;
    assert(0 <= i * block) by (nonlinear_arith)
        requires
            0 <= i,
            block > 0,
    ;
    if r == 0 {
        assert(i * block < size) by (nonlinear_arith)
            requires
                i < q,
                size == block * q + r,
                r == 0,
                block > 0,
        ;
    } else {
        assert(i * block < size) by (nonlinear_arith)
            requires
                i <= q,
                size == block * q + r,
                0 < r,
                block > 0,
        ;
    }
}

/// The count of blocks, `ceil(size / block)`.
pub fn block_count(size: usize, block: usize) -> (r: usize)
    requires
        block > 0,
    ensures
        r == block_count_spec(size as nat, block as nat),
{
    let q = size / block;
    if size % block == 0 {
        q
    } else {
        assert(block != 1);
        proof {
            lemma_fundamental_div_mod(size as int, block as int);
        }
        assert(q < usize::MAX) by (nonlinear_arith)
            requires
                size == block * q + size % block,
                size % block > 0,
                block >= 2,
                q >= 0,
                size <= usize::MAX,
        ;
        q + 1
    }
}

/// Start offsets of all blocks of the file, in file order.
pub fn block_offsets(size: usize, block: usize) -> (r: Vec<usize>)
    requires
        block > 0,
    ensures
        r@ == block_offsets_spec(size as nat, block as nat),
{
    let n = block_count(size, block);
    let mut offsets: Vec<usize> = Vec::with_capacity(n);
    let mut i: usize = 0;
    let mut at: usize = 0;
    while i < n
        invariant
            n == block_count_spec(size as nat, block as nat),
            block > 0,
            i <= n,
            i < n ==> at == i * block,
            offsets@.len() == i,
            forall|j: int| 0 <= j < i ==> offsets@[j] == (j * block) as usize,
        decreases n - i,
    {
        proof {
            lemma_block_starts_inside(i as int, size as nat, block as nat);
        }
        offsets.push(at);
        i = i + 1;
        if i < n {
            proof {
                lemma_block_starts_inside(i as int, size as nat, block as nat);
                assert(i * block == at + block) by (nonlinear_arith)
                    requires
                        i == (i - 1) + 1,
                        at == (i - 1) * block,
                ;
            }
            at = at + block;
        }
    }
    assert(offsets@ =~= block_offsets_spec(size as nat, block as nat));
    offsets
}

/// The read for the block that starts at `offset`, clamped to the end of the file.
pub fn unit_at(offset: usize, block: usize, size: usize) -> (r: WorkUnit)
    requires
        offset < size,
    ensures
        r.offset == offset,
        r.len == read_len_spec(offset as int, block as int, size as int),
{
    let left = size - offset;
    let len = if block <= left {
        block
    } else {
        left
    };
    WorkUnit { offset, len }
}

/// What rand's seeded shuffle makes of a sequence: it depends on the items and the seed alone.
pub uninterp spec fn seeded_shuffle(s: Seq<usize>, seed: u64) -> Seq<usize>;

/// Relies on rand's `StdRng::seed_from_u64` and `SliceRandom::shuffle`: the generator is
/// seeded from `seed` alone, and the shuffle only swaps items in place.
#[verifier::external_body]
fn shuffle_with_seed(items: Vec<usize>, seed: u64) -> (r: Vec<usize>)
    ensures
        r@ == seeded_shuffle(items@, seed),
        r@.to_multiset() == items@.to_multiset(),
{
    let mut items = items;
    let mut rng = StdRng::seed_from_u64(seed);
    items.shuffle(&mut rng);
    items
}

/// The block offsets of the file, permuted once by a generator seeded with `seed`.
pub fn shuffled_block_offsets(size: usize, block: usize, seed: u64) -> (r: Vec<usize>)
    requires
        block > 0,
    ensures
        r@ == seeded_shuffle(block_offsets_spec(size as nat, block as nat), seed),
        r@.to_multiset() == block_offsets_spec(size as nat, block as nat).to_multiset(),
{
    let offsets = block_offsets(size, block);
    shuffle_with_seed(offsets, seed)
}

/// A seeded shuffle is reproducible: the same seed over the same blocks gives the same
/// order every time.
pub proof fn lemma_shuffle_reproducible(
    size: nat,
    block: nat,
    seed: u64,
    first: Seq<usize>,
    second: Seq<usize>,
)
    requires
        first == seeded_shuffle(block_offsets_spec(size, block), seed),
        second == seeded_shuffle(block_offsets_spec(size, block), seed),
    ensures
        first == second,
{
}

/// Blocks cover the file exactly: their count is `ceil(size / block)`, that many blocks
/// reach the end of the file and one fewer does not, and the last block reads
/// `size - (count - 1) * block` bytes.
pub proof fn lemma_block_partition(size: nat, block: nat)
    requires
        block > 0,
    ensures
        block_count_spec(size, block) * block >= size,
        size > 0 ==> (block_count_spec(size, block) - 1) * block < size,
        size == 0 <==> block_count_spec(size, block) == 0,
        size > 0 ==> read_len_spec(
            (block_count_spec(size, block) - 1) * block,
            block as int,
            size as int,
        ) == size - (block_count_spec(size, block) - 1) * block,
{
    lemma_fundamental_div_mod(size as int, block as int);
    let n = block_count_spec(size, block);
    let q = size as int / block as int;
    let r = size as int % block as int;
    if r == 0 {
        assert(n * block >= size) by (nonlinear_arith)
            requires
                n == q,
                size == block * q + r,
                r == 0,
        ;
        assert(size == 0 <==> n == 0) by (nonlinear_arith)
            requires
                n == q,
                size == block * q,
                block > 0,
                q >= 0,
        ;
    } else {
        assert(n * block >= size) by (nonlinear_arith)
            requires
                n == q + 1,
                size == block * q + r,
                r < block,
        ;
    }
    if size > 0 {
        lemma_block_starts_inside(n - 1, size, block);
        let last = (n - 1) * block;
        assert(size - last <= block) by (nonlinear_arith)
            requires
                last == (n - 1) * block,
                n * block >= size,
        ;
    }
}

} // verus!
