//! The size of the parts of a multipart upload, chosen from an estimate of
//! the stream's length so that the store's limit on the number of parts holds.

use vstd::prelude::*;

verus! {

/// The most parts that the object store takes in one upload.
pub const MAX_S3_PART_COUNT: usize = 10000;

/// The smallest part size that is ever chosen: 8 MiB.
pub const MIN_BUFFER_SIZE: usize = 8388608;

/// The first size of `buf_size`, `2 * buf_size`, `4 * buf_size`, ... that
/// cuts `safe_size` bytes into fewer than 10000 parts.
pub open spec fn buffer_size_from(safe_size: nat, buf_size: nat) -> nat
    decreases safe_size - buf_size,
    when buf_size > 0
    via buffer_size_from_decreases
{
    if safe_size / buf_size < MAX_S3_PART_COUNT {
        buf_size
    } else {
        buffer_size_from(safe_size, buf_size * 2)
    }
}

#[via_fn]
proof fn buffer_size_from_decreases(safe_size: nat, buf_size: nat) {
    if safe_size / buf_size >= MAX_S3_PART_COUNT {
        lemma_many_parts(safe_size, buf_size);
    }
}

proof fn lemma_many_parts(safe_size: nat, buf_size: nat)
    requires
        buf_size > 0,
        safe_size / buf_size >= MAX_S3_PART_COUNT,
    ensures
        buf_size * 10000 <= safe_size,
{
    assert(buf_size * (safe_size / buf_size) <= safe_size) by (nonlinear_arith)
        requires
            buf_size > 0,
    ;
    assert(buf_size * 10000 <= buf_size * (safe_size / buf_size)) by (nonlinear_arith)
        requires
            safe_size / buf_size >= 10000,
            buf_size > 0,
    ;
}

/// The part size for a stream estimated at `estimated_size` bytes. The
/// estimate is doubled first, since a stream may turn out longer than
/// estimated.
pub open spec fn buffer_size_for(estimated_size: nat) -> nat {
    buffer_size_from(estimated_size * 2, MIN_BUFFER_SIZE as nat)
}

/// Chooses the part size for a stream estimated at `estimated_size` bytes:
/// 8 MiB, doubled until twice the estimate makes fewer than 10000 parts. No
/// smaller size of that chain would do.
pub fn select_buffer_size(estimated_size: usize) -> (buf_size: usize)
    ensures
        buf_size == buffer_size_for(estimated_size as nat),
        buf_size >= MIN_BUFFER_SIZE,
        (estimated_size * 2) / (buf_size as int) < MAX_S3_PART_COUNT,
        buf_size == MIN_BUFFER_SIZE || (estimated_size * 2) / (buf_size as int / 2)
            >= MAX_S3_PART_COUNT,
{
    let safe_size: u128 = estimated_size as u128 * 2;
    let mut buf_size: u128 = 8388608;
    while safe_size / buf_size >= 10000
        invariant
            safe_size == estimated_size * 2,
            buf_size >= MIN_BUFFER_SIZE,
            buffer_size_from(safe_size as nat, buf_size as nat) == buffer_size_for(
                estimated_size as nat,
            ),
            buf_size == MIN_BUFFER_SIZE || (buf_size % 2 == 0 && safe_size / (buf_size / 2)
                >= MAX_S3_PART_COUNT),
        decreases safe_size - buf_size,
    {
        proof {
            lemma_many_parts(safe_size as nat, buf_size as nat);
        }
        buf_size = buf_size * 2;
        assert(buf_size / 2 == buf_size - buf_size / 2);
    }
    proof {
        if buf_size != MIN_BUFFER_SIZE {
            lemma_many_parts(safe_size as nat, (buf_size / 2) as nat);
        }
    }
    buf_size as usize
}

} // verus!
