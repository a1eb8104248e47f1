//! Chunk arithmetic for the transaction fan-out writer: a block's transaction
//! records are split into consecutive chunks, one chunk per write session, and
//! the chunk count never exceeds the pool size.

use vstd::arithmetic::div_mod::{
    lemma_div_is_ordered, lemma_fundamental_div_mod, lemma_fundamental_div_mod_converse,
};
use vstd::arithmetic::mul::lemma_mul_inequality;
use vstd::prelude::*;

verus! {

/// Ceiling division, as a mathematical function.
pub open spec fn spec_div_ceil(a: int, b: int) -> int {
    (a + b - 1) / b
}

/// Chunk size chosen for `n` records over a pool of `p` write sessions with
/// floor `min_chunk`.
pub open spec fn spec_chunk_size(n: int, p: int, min_chunk: int) -> int {
    if spec_div_ceil(n, p) >= min_chunk {
        spec_div_ceil(n, p)
    } else {
        min_chunk
    }
}

/// Number of chunks that `n` records split into at chunk size `cs`.
pub open spec fn spec_chunk_count(n: int, cs: int) -> int {
    spec_div_ceil(n, cs)
}

/// Rounds the quotient of `a` by `b` upwards.
pub fn div_ceil(a: usize, b: usize) -> (r: usize)
    requires
        b >= 1,
        a + b <= usize::MAX,
    ensures
        r == spec_div_ceil(a as int, b as int),
{
    (a + b - 1) / b
}

/// Chunk size for `n` records over `pool` write sessions, floored at
/// `min_chunk` to avoid many tiny parallel round-trips.
pub fn chunk_size_for(n: usize, pool: usize, min_chunk: usize) -> (r: usize)
    requires
        pool >= 1,
        min_chunk >= 1,
        n + pool <= usize::MAX,
    ensures
        r == spec_chunk_size(n as int, pool as int, min_chunk as int),
        r >= min_chunk,
{
    let per_session = div_ceil(n, pool);
    if per_session >= min_chunk {
        per_session
    } else {
        min_chunk
    }
}

/// The half-open index ranges of the consecutive chunks of `n` records at
/// chunk size `cs`: every chunk is full except possibly the last, and the
/// ranges tile `0..n` in order.
pub fn chunk_bounds(n: usize, cs: usize) -> (r: Vec<(usize, usize)>)
    requires
        cs >= 1,
    ensures
        r@.len() == spec_chunk_count(n as int, cs as int),
        forall|i: int|
            0 <= i < r@.len() ==> r@[i].0 == i * cs && r@[i].0 < r@[i].1 <= n as int,
        forall|i: int|
            0 <= i < r@.len() ==> r@[i].1 == if (i + 1) * cs <= n as int {
                (i + 1) * cs
            } else {
                n as int
            },
{
    let mut r: Vec<(usize, usize)> = Vec::new();
    let mut start: usize = 0;
    proof {
        assert(r@.len() * cs == 0) by (nonlinear_arith)
            requires
                r@.len() == 0,
        ;
    }
    while start < n
        invariant
            cs >= 1,
            start <= n,
            start as int == r@.len() * cs || (start == n && (n as int) < r@.len() * cs),
            forall|i: int|
                0 <= i < r@.len() ==> r@[i].0 == i * cs && r@[i].0 < r@[i].1 <= n as int,
            forall|i: int|
                0 <= i < r@.len() ==> r@[i].1 == if (i + 1) * cs <= n as int {
                    (i + 1) * cs
                } else {
                    n as int
                },
        decreases n - start,
    {
        let end = if n - start > cs {
            start + cs
        } else {
            n
        };
        proof {
            assert(start == r@.len() * cs);
            assert((r@.len() + 1) * cs == r@.len() * cs + cs) by (nonlinear_arith);
        }
        r.push((start, end));
        start = end;
    }
    proof {
        if start as int == r@.len() * cs {
            assert(n as int == r@.len() * cs);
        } else {
            assert((n as int) < r@.len() * cs);
            assert(r@.len() >= 1) by (nonlinear_arith)
                requires
                    (n as int) < r@.len() * cs,
                    n >= 0,
                    cs >= 1,
                    r@.len() >= 0,
            ;
            assert(r@[r@.len() - 1].0 == (r@.len() - 1) * cs);
            assert((r@.len() - 1) * cs < n as int);
        }
        lemma_chunk_count_from_tiling(n as int, cs as int, r@.len() as int);
    }
    r
}

/// A tiling of `0..n` by `k` chunks of size `cs` (last possibly partial) has
/// exactly `ceil(n / cs)` chunks.
proof fn lemma_chunk_count_from_tiling(n: int, cs: int, k: int)
    requires
        cs >= 1,
        n >= 0,
        k >= 0,
        n == k * cs || (k >= 1 && (k - 1) * cs < n < k * cs),
    ensures
        k == spec_chunk_count(n, cs),
{
    if n == k * cs {
        if k == 0 {
            assert((cs - 1) / cs == 0) by {
                lemma_fundamental_div_mod_converse(cs - 1, cs, 0, cs - 1);
            }
        } else {
            assert((k * cs + cs - 1) / cs == k) by {
                lemma_fundamental_div_mod_converse(k * cs + cs - 1, cs, k, cs - 1);
            }
        }
    } else {
        let rem = n - (k - 1) * cs;
        assert(n + cs - 1 == cs * k + (rem - 1)) by (nonlinear_arith)
            requires
                rem == n - (k - 1) * cs,
        ;
        assert((n + cs - 1) / cs == k) by {
            lemma_fundamental_div_mod_converse(n + cs - 1, cs, k, rem - 1);
        }
    }
}

/// The fan-out plan for `n` records over `pool` write sessions: consecutive
/// index ranges, one per chunk, never more chunks than sessions — so chunk
/// `i` can be bound to write session `i`.
pub fn fan_out_chunks(n: usize, pool: usize, min_chunk: usize) -> (r: Vec<(usize, usize)>)
    requires
        pool >= 1,
        min_chunk >= 1,
        n + pool <= usize::MAX,
    ensures
        r@.len() <= pool,
        r@.len() == spec_chunk_count(n as int, spec_chunk_size(n as int, pool as int, min_chunk as int)),
        forall|i: int|
            #![trigger r@[i]]
            0 <= i < r@.len() ==> r@[i].0 < r@[i].1 <= n as int,
        forall|i: int| #![trigger r@[i]] 0 <= i < r@.len() ==> r@[i].0 == i * spec_chunk_size(
            n as int,
            pool as int,
            min_chunk as int,
        ),
{
    let cs = chunk_size_for(n, pool, min_chunk);
    proof {
        lemma_chunk_bound(n as int, pool as int, min_chunk as int);
    }
    chunk_bounds(n, cs)
}

/// Law of the fan-out writer: for any record count `n`, pool size `p >= 1`
/// and chunk floor `min_chunk >= 1`, the chosen chunk size is at least
/// `min(min_chunk, n)` and the number of chunks produced never exceeds the
/// pool size, so each chunk can be bound to a distinct write session.
pub proof fn lemma_chunk_bound(n: int, p: int, min_chunk: int)
    requires
        n >= 0,
        p >= 1,
        min_chunk >= 1,
    ensures
        spec_chunk_count(n, spec_chunk_size(n, p, min_chunk)) <= p,
        spec_chunk_size(n, p, min_chunk) >= if min_chunk <= n {
            min_chunk
        } else {
            n
        },
{
    let cs = spec_chunk_size(n, p, min_chunk);
    assert(spec_div_ceil(n, p) >= 0) by {
        lemma_div_is_ordered(0, n + p - 1, p);
    }
    assert(cs >= min_chunk);
    // n <= p * cs: p * ceil(n / p) >= n, and cs >= ceil(n / p).
    let q = (n + p - 1) / p;
    lemma_fundamental_div_mod(n + p - 1, p);
    assert(p * q >= n);
    lemma_mul_inequality(q, cs, p);
    assert(p * cs >= p * q) by (nonlinear_arith)
        requires
            q * p <= cs * p,
    ;
    // ceil(n / cs) <= p follows from n <= p * cs.
    lemma_div_is_ordered(n + cs - 1, p * cs + cs - 1, cs);
    assert((p * cs + cs - 1) / cs == p) by {
        lemma_fundamental_div_mod_converse(p * cs + cs - 1, cs, p, cs - 1);
    }
}

} // verus!
