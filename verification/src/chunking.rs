//! The chunking convention: how a chunk index maps to a byte range.
//!
//! Chunk `i` of a byte sequence, for chunk size `s`, spans bytes
//! `[i*s, i*s + s)`; the final chunk may be shorter when the length is not
//! a multiple of `s`.

use vstd::prelude::*;

verus! {

/// Number of chunks a sequence of `len` bytes falls into for chunk size `s`:
/// the ceiling of `len / s`. A non-positive chunk size yields no chunks.
pub open spec fn num_chunks(len: int, s: int) -> int {
    if s <= 0 {
        0
    } else if len % s == 0 {
        len / s
    } else {
        len / s + 1
    }
}

/// The bytes of chunk `i` of `data` for chunk size `s`: the byte range
/// `[i*s, i*s + s)`, clipped to the end of the data.
pub open spec fn chunk_spec(data: Seq<u8>, i: int, s: int) -> Seq<u8> {
    let start = i * s;
    let end = if start + s <= data.len() { start + s } else { data.len() as int };
    data.subrange(start, end)
}

/// Every chunk index below `num_chunks` starts strictly before the end of
/// the data, and only the last chunk can be short.
pub proof fn lemma_chunk_start_in_range(len: int, s: int, i: int)
    requires
        s > 0,
        0 <= i < num_chunks(len, s),
    ensures
        i * s < len,
        i < num_chunks(len, s) - 1 ==> i * s + s <= len,
{
    let n = num_chunks(len, s);
    vstd::arithmetic::div_mod::lemma_fundamental_div_mod(len, s);
    assert(len <= n * s && n * s < len + s) by (nonlinear_arith)
        requires s > 0, n == num_chunks(len, s), len == s * (len / s) + len % s,
            0 <= len % s < s,
    {
    }
    assert(i <= n - 1);
    assert(i * s <= (n - 1) * s && (i + 1) * s <= n * s) by (nonlinear_arith)
        requires s > 0, i <= n - 1,
    {
    }
    assert((n - 1) * s == n * s - s) by (nonlinear_arith) {}
    assert(i < n - 1 ==> i * s + s <= (n - 1) * s) by (nonlinear_arith)
        requires s > 0,
    {
    }
}

/// Exact length of each chunk: `s` for every chunk but possibly the last,
/// and `len % s` for the last chunk when the length is not a multiple of `s`.
pub proof fn lemma_chunk_len(data: Seq<u8>, s: int, i: int)
    requires
        s > 0,
        0 <= i < num_chunks(data.len() as int, s),
    ensures
        i < num_chunks(data.len() as int, s) - 1 ==> chunk_spec(data, i, s).len() == s,
        i == num_chunks(data.len() as int, s) - 1 && data.len() % (s as nat) != 0
            ==> chunk_spec(data, i, s).len() == data.len() % (s as nat),
        i == num_chunks(data.len() as int, s) - 1 && data.len() % (s as nat) == 0
            ==> chunk_spec(data, i, s).len() == s,
{
    let len = data.len() as int;
    let n = num_chunks(len, s);
    lemma_chunk_start_in_range(len, s, i);
    if i == n - 1 {
        vstd::arithmetic::div_mod::lemma_fundamental_div_mod(len, s);
        assert(len % s == len - s * (len / s));
        if len % s == 0 {
            assert((n - 1) * s + s == len) by (nonlinear_arith)
                requires s > 0, n == len / s, len % s == 0, len == s * (len / s),
            {
            }
        } else {
            assert((n - 1) * s == len - len % s) by (nonlinear_arith)
                requires s > 0, n == len / s + 1, len == s * (len / s) + len % s,
            {
            }
            assert((n - 1) * s + s > len) by (nonlinear_arith)
                requires s > 0, (n - 1) * s == len - len % s, 0 < len % s < s,
            {
            }
        }
    }
}

/// Short-chunk law: when the length of the data is not a multiple of the
/// chunk size, it falls into `len / s + 1` chunks (the ceiling of `len / s`),
/// and the last chunk is exactly the remaining `len % s` bytes at the tail.
/// The digest writer therefore emits that many lines, the last computed
/// over those remaining bytes.
pub proof fn lemma_short_last_chunk(data: Seq<u8>, s: int)
    requires
        s > 0,
        data.len() % (s as nat) != 0,
    ensures
        num_chunks(data.len() as int, s) == data.len() as int / s + 1,
        chunk_spec(data, num_chunks(data.len() as int, s) - 1, s) == data.subrange(
            data.len() - data.len() % (s as nat),
            data.len() as int,
        ),
        chunk_spec(data, num_chunks(data.len() as int, s) - 1, s).len() == data.len() % (
        s as nat),
{
    let len = data.len() as int;
    let n = num_chunks(len, s);
    lemma_chunk_start_in_range(len, s, n - 1);
    lemma_chunk_len(data, s, n - 1);
    vstd::arithmetic::div_mod::lemma_fundamental_div_mod(len, s);
    assert((n - 1) * s == len - len % s) by (nonlinear_arith)
        requires
            s > 0,
            n == len / s + 1,
            len == s * (len / s) + len % s,
    {
    }
    assert(chunk_spec(data, n - 1, s) =~= data.subrange(len - len % s, len));
}

} // verus!
