//! The capacity policy: the pure decision at the heart of the sink.
//!
//! Given the current file position, the length of the pending chunk, the
//! capacity and the filesystem block size, `decide` returns how many bytes
//! must be collapsed from the head of the file before the chunk is appended:
//! zero when the chunk still fits, otherwise the overflow rounded up to the
//! next multiple of the block size. `effective_capacity` derives the
//! capacity actually enforced from the one the user requested.

use vstd::arithmetic::div_mod::{
    lemma_fundamental_div_mod, lemma_mod_division_less_than_divisor, lemma_mod_multiples_basic,
};
use vstd::prelude::*;

verus! {

/// The collapse target the policy chooses: `0` when `position + chunk_length`
/// still fits under `capacity`, otherwise the overflow rounded up to the next
/// multiple of `block_size`.
pub open spec fn spec_decide(
    position: int,
    chunk_length: int,
    capacity: int,
    block_size: int,
) -> int {
    if position + chunk_length <= capacity {
        0
    } else {
        ((position + chunk_length - capacity + block_size - 1) / block_size) * block_size
    }
}

/// The capacity actually enforced for a requested byte count: the request
/// rounded down to whole blocks, but never fewer than two blocks.
pub open spec fn spec_effective_capacity(requested: int, block_size: int) -> int {
    if requested / block_size <= 2 {
        2 * block_size
    } else {
        (requested / block_size) * block_size
    }
}

/// Rounding a positive overflow up to the next multiple of a positive block
/// size yields the least block multiple that covers it.
pub(crate) proof fn lemma_round_up_to_block(overflow: int, block_size: int)
    requires
        0 < block_size,
        0 < overflow,
    ensures
        ({
            let target = ((overflow + block_size - 1) / block_size) * block_size;
            &&& target % block_size == 0
            &&& overflow <= target
            &&& target < overflow + block_size
            &&& forall|u: int|
                0 <= u && #[trigger] (u % block_size) == 0 && overflow <= u ==> target <= u
        }),
{
    let q = (overflow + block_size - 1) / block_size;
    let target = q * block_size;
    lemma_fundamental_div_mod(overflow + block_size - 1, block_size);
    lemma_mod_division_less_than_divisor(overflow + block_size - 1, block_size);
    assert(q * block_size == block_size * q) by (nonlinear_arith);
    assert(overflow <= target);
    assert(target < overflow + block_size);
    lemma_mod_multiples_basic(q, block_size);
    assert forall|u: int|
        0 <= u && #[trigger] (u % block_size) == 0 && overflow <= u implies target <= u by {
        let k = u / block_size;
        lemma_fundamental_div_mod(u, block_size);
        assert(u == block_size * k);
        assert(block_size * (q - 1) == block_size * q - block_size) by (nonlinear_arith);
        assert(block_size * (q - 1) < block_size * k);
        assert(block_size * (q - 1) < block_size * k ==> q - 1 < k) by (nonlinear_arith)
            requires
                block_size > 0,
        ;
        assert(q <= k ==> block_size * q <= block_size * k) by (nonlinear_arith)
            requires
                block_size > 0,
        ;
    }
}

/// A positive multiple of a positive block size is at least that block size.
proof fn lemma_positive_multiple_at_least(capacity: int, block_size: int)
    requires
        0 < block_size,
        0 < capacity,
        capacity % block_size == 0,
    ensures
        block_size <= capacity,
{
    if capacity < block_size {
        lemma_fundamental_div_mod(capacity, block_size);
        vstd::arithmetic::div_mod::lemma_basic_div(capacity, block_size);
    }
}

/// How many bytes, if any, must be collapsed from the head of the file before
/// a chunk of `chunk_length` bytes is written at `position`, so that the file
/// ends at or under `capacity`: zero when the chunk fits, otherwise the
/// overflow rounded up to the next multiple of `block_size` — the least
/// block-aligned amount that restores the bound, never more than one block
/// over the overflow itself.
pub fn decide(position: usize, chunk_length: usize, capacity: usize, block_size: usize) -> (target:
    usize)
    requires
        0 < block_size,
        0 < capacity,
        capacity as int % block_size as int == 0,
        position + chunk_length <= usize::MAX,
    ensures
        target == spec_decide(
            position as int,
            chunk_length as int,
            capacity as int,
            block_size as int,
        ),
        target == 0 <==> position + chunk_length <= capacity,
        target as int % block_size as int == 0,
        target > 0 ==> position + chunk_length - target <= capacity,
        target > 0 ==> capacity < position + chunk_length - (target - block_size),
        forall|u: int|
            0 <= u && #[trigger] (u % block_size as int) == 0 && position + chunk_length - u
                <= capacity ==> target <= u,
        target < block_size + position + chunk_length,
{
    proof {
        lemma_positive_multiple_at_least(capacity as int, block_size as int);
    }
    let total: usize = position + chunk_length;
    if total <= capacity {
        proof {
            lemma_mod_multiples_basic(0, block_size as int);
        }
        0
    } else {
        let overflow: usize = total - capacity;
        proof {
            lemma_round_up_to_block(overflow as int, block_size as int);
        }
        let num_blocks: usize = (overflow + (block_size - 1)) / block_size;
        num_blocks * block_size
    }
}

/// The capacity the writer enforces for a user-requested size limit: the
/// request rounded down to whole blocks, raised to two blocks when smaller,
/// exactly as `spec_effective_capacity` states; always a positive multiple of
/// the block size and at least two blocks.
pub fn effective_capacity(requested: usize, block_size: usize) -> (cap: usize)
    requires
        0 < block_size,
        2 * block_size <= usize::MAX,
    ensures
        cap == spec_effective_capacity(requested as int, block_size as int),
        cap as int % block_size as int == 0,
        2 * block_size <= cap,
{
    let quotient: usize = requested / block_size;
    if quotient <= 2 {
        proof {
            lemma_mod_multiples_basic(2, block_size as int);
            assert(2 * block_size as int == block_size as int * 2) by (nonlinear_arith);
        }
        2 * block_size
    } else {
        proof {
            lemma_fundamental_div_mod(requested as int, block_size as int);
            lemma_mod_division_less_than_divisor(requested as int, block_size as int);
            lemma_mod_multiples_basic(quotient as int, block_size as int);
            assert(quotient as int * block_size as int == block_size as int * quotient as int)
                by (nonlinear_arith);
            assert(2 < quotient ==> 2 * block_size as int <= quotient as int * block_size as int)
                by (nonlinear_arith)
                requires
                    block_size > 0,
            ;
        }
        quotient * block_size
    }
}

/// The policy is a pure function: two results that both meet `decide`'s
/// exact postcondition on the same inputs are the same value, so calling
/// `decide` twice with identical inputs yields identical output.
pub proof fn lemma_decide_deterministic(
    position: int,
    chunk_length: int,
    capacity: int,
    block_size: int,
    first: int,
    second: int,
)
    requires
        first == spec_decide(position, chunk_length, capacity, block_size),
        second == spec_decide(position, chunk_length, capacity, block_size),
    ensures
        first == second,
{
}

} // verus!

