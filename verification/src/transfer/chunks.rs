//! How a file is cut into chunks.

use vstd::prelude::*;

verus! {

/// The chunks that `size` bytes take, the last one possibly short.
pub open spec fn chunk_count(size: int, chunk_size: int) -> int {
    (size + chunk_size - 1) / chunk_size
}

/// The bytes of chunk `idx`.
pub open spec fn chunk_len(size: int, chunk_size: int, idx: int) -> int {
    if size - idx * chunk_size < chunk_size {
        size - idx * chunk_size
    } else {
        chunk_size
    }
}

/// The bytes of the first `n` chunks together.
pub open spec fn chunks_total(size: int, chunk_size: int, n: nat) -> int
    decreases n,
{
    if n == 0 {
        0
    } else {
        chunks_total(size, chunk_size, (n - 1) as nat) + chunk_len(size, chunk_size, n - 1)
    }
}

/// An index below the count is the index of a chunk that starts inside the file.
pub proof fn lemma_chunk_inside(size: int, chunk_size: int, idx: int)
    requires
        0 <= size,
        0 < chunk_size,
        0 <= idx,
    ensures
        idx < chunk_count(size, chunk_size) <==> idx * chunk_size < size,
        0 <= idx * chunk_size,
        idx < chunk_count(size, chunk_size) ==> 0 < chunk_len(size, chunk_size, idx) <= chunk_size
            && idx * chunk_size + chunk_len(size, chunk_size, idx) <= size,
        0 <= chunk_count(size, chunk_size) <= size,
{
    let n = chunk_count(size, chunk_size);
    assert(0 <= idx * chunk_size) by (nonlinear_arith)
        requires
            0 <= idx,
            0 < chunk_size,
    ;
    vstd::arithmetic::div_mod::lemma_fundamental_div_mod(size + chunk_size - 1, chunk_size);
    let m = (size + chunk_size - 1) % chunk_size;
    assert(0 <= m < chunk_size) by (nonlinear_arith)
        requires
            m == (size + chunk_size - 1) % chunk_size,
            0 < chunk_size,
    ;
    assert(chunk_size * n == size + chunk_size - 1 - m);
    assert(idx < n ==> idx * chunk_size <= chunk_size * n - chunk_size) by (nonlinear_arith)
        requires
            0 < chunk_size,
    ;
    assert(idx >= n ==> idx * chunk_size >= chunk_size * n) by (nonlinear_arith)
        requires
            0 < chunk_size,
    ;
    assert(0 <= n <= size) by (nonlinear_arith)
        requires
            chunk_size * n == size + chunk_size - 1 - m,
            0 <= m < chunk_size,
            0 < chunk_size,
            0 <= size,
    ;
}

/// The chunks tile the file: every byte lies in the chunk that its position
/// names, and in no other.
pub proof fn lemma_chunks_tile(size: int, chunk_size: int, byte: int, idx: int)
    requires
        0 < chunk_size,
        0 <= byte < size,
        0 <= idx < chunk_count(size, chunk_size),
    ensures
        0 <= byte / chunk_size < chunk_count(size, chunk_size),
        idx * chunk_size <= byte < idx * chunk_size + chunk_len(size, chunk_size, idx) <==> idx
            == byte / chunk_size,
{
    let c = byte / chunk_size;
    vstd::arithmetic::div_mod::lemma_fundamental_div_mod(byte, chunk_size);
    let m = byte % chunk_size;
    assert(0 <= m < chunk_size) by (nonlinear_arith)
        requires
            m == byte % chunk_size,
            0 < chunk_size,
    ;
    assert(c >= 0) by (nonlinear_arith)
        requires
            byte == chunk_size * c + m,
            0 <= m < chunk_size,
            0 <= byte,
            0 < chunk_size,
    ;
    assert(chunk_size * c == c * chunk_size) by (nonlinear_arith);
    lemma_chunk_inside(size, chunk_size, c);
    lemma_chunk_inside(size, chunk_size, idx);
    assert(idx < c ==> idx * chunk_size + chunk_size <= c * chunk_size) by (nonlinear_arith)
        requires
            0 < chunk_size,
    ;
    assert(idx > c ==> idx * chunk_size >= c * chunk_size + chunk_size) by (nonlinear_arith)
        requires
            0 < chunk_size,
    ;
}

/// The chunks together are exactly the file.
pub proof fn lemma_chunks_total(size: int, chunk_size: int, n: nat)
    requires
        0 <= size,
        0 < chunk_size,
        n <= chunk_count(size, chunk_size),
    ensures
        chunks_total(size, chunk_size, n) == if n * chunk_size < size {
            n * chunk_size
        } else {
            size
        },
        n == chunk_count(size, chunk_size) ==> chunks_total(size, chunk_size, n) == size,
    decreases n,
{
    lemma_chunk_inside(size, chunk_size, n as int);
    assert(n == 0 ==> n * chunk_size == 0) by (nonlinear_arith);
    if n > 0 {
        let m = (n - 1) as nat;
        lemma_chunks_total(size, chunk_size, m);
        lemma_chunk_inside(size, chunk_size, m as int);
        assert(n * chunk_size == m * chunk_size + chunk_size) by (nonlinear_arith)
            requires
                n == m + 1,
        ;
    }
}

/// The chunks that a file of `size` bytes takes.
pub fn total_chunks(size: u64, chunk_size: u64) -> (r: u64)
    requires
        chunk_size > 0,
    ensures
        r == chunk_count(size as int, chunk_size as int),
{
    let whole: u64 = size / chunk_size;
    let rest: u64 = size % chunk_size;
    proof {
        lemma_chunk_inside(size as int, chunk_size as int, 0);
        vstd::arithmetic::div_mod::lemma_fundamental_div_mod(size as int, chunk_size as int);
        let q = size as int / chunk_size as int;
        let m = size as int % chunk_size as int;
        let c = chunk_size as int;
        if rest == 0 {
            vstd::arithmetic::div_mod::lemma_fundamental_div_mod_converse(
                size + c - 1,
                c,
                q,
                c - 1,
            );
        } else {
            assert(c * (q + 1) == c * q + c) by (nonlinear_arith);
            vstd::arithmetic::div_mod::lemma_fundamental_div_mod_converse(
                size + c - 1,
                c,
                q + 1,
                m - 1,
            );
        }
    }
    if rest == 0 {
        whole
    } else {
        whole + 1
    }
}

/// Where chunk `idx` starts and how many bytes it has.
pub fn chunk_span(size: u64, chunk_size: u64, idx: u64) -> (r: (u64, u64))
    requires
        chunk_size > 0,
        idx < chunk_count(size as int, chunk_size as int),
    ensures
        r.0 == idx * chunk_size,
        r.1 == chunk_len(size as int, chunk_size as int, idx as int),
        0 < r.1 <= chunk_size,
        r.0 + r.1 <= size,
{
    proof {
        lemma_chunk_inside(size as int, chunk_size as int, idx as int);
    }
    let off: u64 = idx * chunk_size;
    let left: u64 = size - off;
    if left < chunk_size {
        (off, left)
    } else {
        (off, chunk_size)
    }
}

} // verus!
