//! The digest writer and checker cores: computing one digest line per chunk
//! of the data, and comparing a list of digest lines against the data.

use vstd::prelude::*;
use crate::chunking::{chunk_spec, lemma_chunk_start_in_range, num_chunks};
use crate::sha256::{chunk_digest, digest_line_of};

verus! {

/// How many lines the checker compares: it walks the digest lines in
/// lockstep with chunk reads and stops at whichever runs out first.
pub open spec fn checked_count(len: int, n_lines: int, s: int) -> int {
    if n_lines <= num_chunks(len, s) {
        n_lines
    } else {
        num_chunks(len, s)
    }
}

/// Line `n` disagrees with the data: its text is not the digest line of
/// chunk `n`.
pub open spec fn is_mismatch(data: Seq<u8>, lines: Seq<Seq<char>>, n: int, s: int) -> bool {
    lines[n] != digest_line_of(chunk_spec(data, n, s))
}

/// Computes the number of chunks of `len` bytes of data for `chunk_size`.
pub fn num_chunks_exec(len: usize, chunk_size: usize) -> (r: usize)
    ensures
        r == num_chunks(len as int, chunk_size as int),
{
    if chunk_size == 0 {
        return 0;
    }
    let q: usize = len / chunk_size;
    let r: usize = len % chunk_size;
    if r == 0 {
        q
    } else {
        proof {
            vstd::arithmetic::div_mod::lemma_fundamental_div_mod(len as int, chunk_size as int);
            assert(q < len) by (nonlinear_arith)
                requires
                    chunk_size >= 1,
                    r >= 1,
                    len as int == chunk_size as int * (q as int) + r as int,
            {
            }
        }
        q + 1
    }
}

/// Returns a borrowed slice of chunk `i` of the data.
fn chunk_at(data: &Vec<u8>, i: usize, chunk_size: usize) -> (r: &[u8])
    requires
        chunk_size > 0,
        i < num_chunks(data@.len() as int, chunk_size as int),
    ensures
        r@ == chunk_spec(data@, i as int, chunk_size as int),
{
    let len = data.len();
    proof {
        lemma_chunk_start_in_range(len as int, chunk_size as int, i as int);
    }
    let start = i * chunk_size;
    let end = if len - start < chunk_size {
        len
    } else {
        start + chunk_size
    };
    let r = vstd::slice::slice_subrange(data.as_slice(), start, end);
    proof {
        assert(r@ =~= chunk_spec(data@, i as int, chunk_size as int));
    }
    r
}

/// The digest writer's core: one digest line per chunk, in chunk order.
/// The list has `ceil(len / chunk_size)` lines, and the last line covers
/// only the bytes that remain, when the length is not a multiple of the
/// chunk size. A chunk size of zero yields no lines.
pub fn digest_lines(data: &Vec<u8>, chunk_size: usize) -> (r: Vec<String>)
    ensures
        r@.len() == num_chunks(data@.len() as int, chunk_size as int),
        forall|i: int|
            0 <= i < r@.len() ==> #[trigger] r@[i]@ == digest_line_of(
                chunk_spec(data@, i, chunk_size as int),
            ),
{
    let mut out: Vec<String> = Vec::new();
    if chunk_size == 0 {
        return out;
    }
    let n = num_chunks_exec(data.len(), chunk_size);
    let mut i: usize = 0;
    while i < n
        invariant
            chunk_size > 0,
            n == num_chunks(data@.len() as int, chunk_size as int),
            i <= n,
            out@.len() == i,
            forall|j: int|
                0 <= j < i ==> #[trigger] out@[j]@ == digest_line_of(
                    chunk_spec(data@, j, chunk_size as int),
                ),
        decreases n - i,
    {
        let chunk = chunk_at(data, i, chunk_size);
        out.push(chunk_digest(chunk));
        i = i + 1;
    }
    out
}

/// The digest checker's core: walks the digest lines in lockstep with the
/// chunks of the data and returns the indices whose line differs from the
/// chunk's digest line, in increasing order. Lines beyond the data's last
/// chunk, and chunks beyond the last line, are not examined.
pub fn check_digests(data: &Vec<u8>, lines: &Vec<String>, chunk_size: usize) -> (r: Vec<usize>)
    ensures
        forall|j: int|
            0 <= j < r@.len() ==> ((#[trigger] r@[j]) as int) < checked_count(
                data@.len() as int,
                lines@.len() as int,
                chunk_size as int,
            ) && is_mismatch(data@, lines.deep_view(), r@[j] as int, chunk_size as int),
        forall|n: int|
            0 <= n < checked_count(data@.len() as int, lines@.len() as int, chunk_size as int)
                && is_mismatch(data@, lines.deep_view(), n, chunk_size as int) ==> r@.contains(
                n as usize,
            ),
        forall|j: int, k: int| 0 <= j < k < r@.len() ==> r@[j] < r@[k],
{
    let mut out: Vec<usize> = Vec::new();
    if chunk_size == 0 {
        return out;
    }
    let n_chunks = num_chunks_exec(data.len(), chunk_size);
    let checked = if lines.len() <= n_chunks {
        lines.len()
    } else {
        n_chunks
    };
    let ghost c = checked_count(data@.len() as int, lines@.len() as int, chunk_size as int);
    let mut n: usize = 0;
    while n < checked
        invariant
            chunk_size > 0,
            checked == c,
            c <= num_chunks(data@.len() as int, chunk_size as int),
            c <= lines@.len(),
            n <= checked,
            forall|j: int|
                0 <= j < out@.len() ==> ((#[trigger] out@[j]) as int) < n && is_mismatch(
                    data@,
                    lines.deep_view(),
                    out@[j] as int,
                    chunk_size as int,
                ),
            forall|m: int|
                0 <= m < n && is_mismatch(data@, lines.deep_view(), m, chunk_size as int)
                    ==> out@.contains(m as usize),
            forall|j: int, k: int| 0 <= j < k < out@.len() ==> out@[j] < out@[k],
        decreases checked - n,
    {
        let chunk = chunk_at(data, n, chunk_size);
        let computed = chunk_digest(chunk);
        proof {
            assert(lines.deep_view()[n as int] == lines@[n as int]@);
        }
        if !computed.eq(&lines[n]) {
            let ghost pre = out@;
            out.push(n);
            proof {
                assert forall|m: int|
                    0 <= m < n + 1 && is_mismatch(
                        data@,
                        lines.deep_view(),
                        m,
                        chunk_size as int,
                    ) implies out@.contains(m as usize) by {
                    if m < n {
                        assert(pre.contains(m as usize));
                        let t = choose|t: int| 0 <= t < pre.len() && pre[t] == m as usize;
                        assert(out@[t] == m as usize);
                    } else {
                        assert(out@[out@.len() - 1] == n as usize);
                    }
                }
            }
        }
        n = n + 1;
    }
    out
}

/// Round-trip law: digest lines computed from the data never mismatch
/// against that same data. Running the writer and then the checker on the
/// same data and chunk size therefore reports no mismatched index.
pub proof fn lemma_round_trip(data: Seq<u8>, lines: Seq<Seq<char>>, s: int)
    requires
        forall|i: int|
            0 <= i < lines.len() ==> lines[i] == digest_line_of(#[trigger] chunk_spec(data, i, s)),
    ensures
        forall|n: int|
            0 <= n < checked_count(data.len() as int, lines.len() as int, s) ==> !is_mismatch(
                data,
                lines,
                n,
                s,
            ),
{
}

/// Mismatch localization law: if the data is altered only inside chunk
/// `k`'s byte range, then against digest lines of the original data no
/// index other than `k` mismatches. (That index `k` itself does mismatch
/// rests on the hash telling the two chunks apart, which is beyond what
/// the digest's name states.)
pub proof fn lemma_mismatch_localized(
    data: Seq<u8>,
    corrupt: Seq<u8>,
    lines: Seq<Seq<char>>,
    k: int,
    s: int,
)
    requires
        s > 0,
        0 <= k,
        corrupt.len() == data.len(),
        forall|i: int|
            0 <= i < data.len() && !(k * s <= i < k * s + s) ==> corrupt[i] == data[i],
        forall|i: int|
            0 <= i < lines.len() ==> lines[i] == digest_line_of(#[trigger] chunk_spec(data, i, s)),
    ensures
        forall|n: int|
            0 <= n < checked_count(corrupt.len() as int, lines.len() as int, s) && n != k
                ==> !is_mismatch(corrupt, lines, n, s),
{
    let len = corrupt.len() as int;
    assert forall|n: int|
        0 <= n < checked_count(len, lines.len() as int, s) && n != k implies !is_mismatch(
        corrupt,
        lines,
        n,
        s,
    ) by {
        lemma_chunk_start_in_range(len, s, n);
        if n < k {
            assert(n * s + s <= k * s) by (nonlinear_arith)
                requires s > 0, n < k,
            {
            }
        } else {
            assert(k * s + s <= n * s) by (nonlinear_arith)
                requires s > 0, k < n,
            {
            }
        }
        assert(chunk_spec(corrupt, n, s) =~= chunk_spec(data, n, s));
    }
}

} // verus!
