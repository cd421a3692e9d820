//! Chunk ranges for bounded-size sequential writes.
//!
//! An output writer persists a buffer in chunks of a fixed maximum size
//! rather than as one unbounded write. The ranges themselves are pure
//! arithmetic, computed and verified here; performing the writes is the
//! caller's business.

use vstd::prelude::*;

verus! {

/// Splits `[0, len)` into consecutive ranges of at most `chunk` bytes each.
///
/// Every range but the last is exactly `chunk` long; the ranges are adjacent,
/// in order, and together cover `[0, len)` exactly once.
pub fn chunk_bounds(len: usize, chunk: usize) -> (v: Vec<(usize, usize)>)
    requires
        chunk > 0,
    ensures
        forall|j: int| 0 <= j < v@.len() ==> (#[trigger] v@[j]).0 == j * chunk,
        forall|j: int|
            0 <= j < v@.len() ==> (#[trigger] v@[j]).1 == if j * chunk + chunk <= len {
                j * chunk + chunk
            } else {
                len as int
            },
        v@.len() == if len as int % chunk as int == 0 {
            len as int / chunk as int
        } else {
            len as int / chunk as int + 1
        },
{
    let mut v: Vec<(usize, usize)> = Vec::new();
    let mut offset: usize = 0;
    proof {
        assert(v@.len() * chunk == 0) by (nonlinear_arith)
            requires
                v@.len() == 0,
        ;
    }
    while offset < len
        invariant
            chunk > 0,
            offset <= len,
            v@.len() * chunk == offset,
            forall|j: int| 0 <= j < v@.len() ==> (#[trigger] v@[j]).0 == j * chunk,
            forall|j: int|
                0 <= j < v@.len() ==> (#[trigger] v@[j]).1 == if j * chunk + chunk <= len {
                    j * chunk + chunk
                } else {
                    len as int
                },
        decreases len - offset,
    {
        let end = if chunk < len - offset {
            offset + chunk
        } else {
            len
        };
        let ghost n = v@.len();
        v.push((offset, end));
        proof {
            assert(n * chunk + chunk == (n + 1) * chunk) by (nonlinear_arith);
        }
        if end - offset < chunk {
            assert(end == len);
            proof {
                lemma_last_chunk(len as int, chunk as int, v@.len() as int);
            }
            return v;
        }
        offset = end;
    }
    proof {
        lemma_full_chunks(len as int, chunk as int, v@.len() as int);
    }
    v
}

/// After emitting `n` full chunks that cover `len` exactly, `n == len / chunk`.
proof fn lemma_full_chunks(len: int, chunk: int, n: int)
    requires
        chunk > 0,
        n >= 0,
        n * chunk == len,
    ensures
        len % chunk == 0,
        n == len / chunk,
{
    assert(len % chunk == 0 && n == len / chunk) by (nonlinear_arith)
        requires
            chunk > 0,
            n >= 0,
            n * chunk == len,
    ;
}

/// After a short final chunk, the count is `len / chunk` rounded up.
proof fn lemma_last_chunk(len: int, chunk: int, n: int)
    requires
        chunk > 0,
        n >= 1,
        (n - 1) * chunk < len,
        len < n * chunk,
    ensures
        len % chunk != 0,
        n == len / chunk + 1,
{
    assert(len % chunk != 0 && n == len / chunk + 1) by (nonlinear_arith)
        requires
            chunk > 0,
            n >= 1,
            (n - 1) * chunk < len,
            len < n * chunk,
    ;
}

} // verus!
