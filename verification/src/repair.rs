//! The chunk extractor and repairer cores: copying one chunk's byte range
//! out of the data, and overwriting one chunk's byte range with donor bytes.

use vstd::prelude::*;
use crate::chunking::{chunk_spec, lemma_chunk_len, lemma_chunk_start_in_range, num_chunks};

verus! {

/// Why an extract or fix operation failed.
#[derive(Clone, Copy, Debug, PartialEq, Eq, Structural)]
pub enum ChunkError {
    /// Fewer bytes were available than the full chunk the operation reads.
    ShortRead,
    /// The chunk's byte range ends beyond what a length can address.
    OffsetOverflow,
}

/// The extractor succeeds exactly when the full chunk lies inside the data.
pub open spec fn extract_ok(len: int, chunk_number: int, s: int) -> bool {
    chunk_number * s + s <= len
}

/// The repaired data: the bytes of chunk `chunk_number`'s range replaced by
/// the donor bytes. A range starting beyond the end of the data zero-fills
/// the gap, and a range ending beyond the end extends the data, as an
/// in-place write at that offset does.
pub open spec fn fix_spec(data: Seq<u8>, donor: Seq<u8>, chunk_number: int, s: int) -> Seq<u8> {
    let start = chunk_number * s;
    let end = start + s;
    let new_len = if end <= data.len() { data.len() as int } else { end };
    Seq::new(
        new_len as nat,
        |i: int|
            if start <= i < end {
                donor[i - start]
            } else if i < data.len() {
                data[i]
            } else {
                0u8
            },
    )
}

/// The extractor's core: copies the byte range `[chunk_number * chunk_size,
/// chunk_number * chunk_size + chunk_size)` out of the data. It fails with a
/// short read exactly when that range does not lie fully inside the data;
/// it never returns a truncated buffer.
pub fn extract_chunk(data: &Vec<u8>, chunk_number: usize, chunk_size: usize) -> (r: Result<
    Vec<u8>,
    ChunkError,
>)
    ensures
        r is Ok <==> extract_ok(
            data@.len() as int,
            chunk_number as int,
            chunk_size as int,
        ),
        r matches Ok(c) ==> c@ == chunk_spec(data@, chunk_number as int, chunk_size as int)
            && c@.len() == chunk_size,
        r matches Err(e) ==> e == ChunkError::ShortRead,
{
    let len = data.len();
    let start = match chunk_number.checked_mul(chunk_size) {
        Some(p) => p,
        None => {
            return Err(ChunkError::ShortRead);
        },
    };
    let end = match start.checked_add(chunk_size) {
        Some(e) => e,
        None => {
            return Err(ChunkError::ShortRead);
        },
    };
    if end > len {
        return Err(ChunkError::ShortRead);
    }
    let chunk = vstd::slice::slice_subrange(data.as_slice(), start, end);
    let mut out: Vec<u8> = Vec::new();
    let mut i: usize = 0;
    while i < chunk.len()
        invariant
            i <= chunk@.len(),
            out@ == chunk@.subrange(0, i as int),
        decreases chunk@.len() - i,
    {
        out.push(chunk[i]);
        proof {
            assert(out@ =~= chunk@.subrange(0, i + 1));
        }
        i = i + 1;
    }
    proof {
        assert(out@ =~= chunk@);
        assert(out@ =~= chunk_spec(data@, chunk_number as int, chunk_size as int));
    }
    Ok(out)
}

/// The repairer's core: returns the data with chunk `chunk_number`'s byte
/// range overwritten by the first `chunk_size` donor bytes. It fails with a
/// short read exactly when the donor holds fewer than `chunk_size` bytes,
/// and with an overflow when the range's end cannot be addressed.
pub fn fix_chunk(data: &Vec<u8>, donor: &Vec<u8>, chunk_number: usize, chunk_size: usize) -> (r:
    Result<Vec<u8>, ChunkError>)
    ensures
        r is Ok <==> donor@.len() >= chunk_size && chunk_number as int * chunk_size as int
            + chunk_size as int <= usize::MAX,
        r matches Ok(fixed) ==> fixed@ == fix_spec(
            data@,
            donor@.subrange(0, chunk_size as int),
            chunk_number as int,
            chunk_size as int,
        ),
        donor@.len() < chunk_size ==> (r matches Err(e) && e == ChunkError::ShortRead),
        donor@.len() >= chunk_size && chunk_number as int * chunk_size as int + chunk_size as int
            > usize::MAX ==> (r matches Err(e) && e == ChunkError::OffsetOverflow),
{
    if donor.len() < chunk_size {
        return Err(ChunkError::ShortRead);
    }
    let start = match chunk_number.checked_mul(chunk_size) {
        Some(p) => p,
        None => {
            return Err(ChunkError::OffsetOverflow);
        },
    };
    let end = match start.checked_add(chunk_size) {
        Some(e) => e,
        None => {
            return Err(ChunkError::OffsetOverflow);
        },
    };
    let new_len = if end <= data.len() {
        data.len()
    } else {
        end
    };
    let ghost target = fix_spec(
        data@,
        donor@.subrange(0, chunk_size as int),
        chunk_number as int,
        chunk_size as int,
    );
    let mut out: Vec<u8> = Vec::new();
    let mut i: usize = 0;
    while i < new_len
        invariant
            i <= new_len,
            start == chunk_number as int * chunk_size as int,
            end == start + chunk_size,
            donor@.len() >= chunk_size,
            new_len == target.len(),
            new_len >= data@.len(),
            target == fix_spec(
                data@,
                donor@.subrange(0, chunk_size as int),
                chunk_number as int,
                chunk_size as int,
            ),
            out@ == target.subrange(0, i as int),
        decreases new_len - i,
    {
        let b: u8 = if start <= i && i < end {
            donor[i - start]
        } else if i < data.len() {
            data[i]
        } else {
            0u8
        };
        out.push(b);
        proof {
            assert(out@ =~= target.subrange(0, i + 1));
        }
        i = i + 1;
    }
    proof {
        assert(out@ =~= target);
    }
    Ok(out)
}

/// Concatenation of chunks `0..n` of the data, in index order.
pub open spec fn concat_chunks(data: Seq<u8>, n: int, s: int) -> Seq<u8>
    decreases n,
{
    if n <= 0 {
        Seq::<u8>::empty()
    } else {
        concat_chunks(data, n - 1, s) + chunk_spec(data, n - 1, s)
    }
}

/// Chunk partition law: when the data's length is a multiple of the chunk
/// size, every chunk is extractable and concatenating all extracted chunks,
/// in index order, reconstructs the data exactly.
pub proof fn lemma_chunk_partition(data: Seq<u8>, s: int)
    requires
        s > 0,
        data.len() % (s as nat) == 0,
    ensures
        forall|i: int|
            0 <= i < num_chunks(data.len() as int, s) ==> extract_ok(data.len() as int, i, s),
        concat_chunks(data, num_chunks(data.len() as int, s), s) == data,
{
    let len = data.len() as int;
    let n = num_chunks(len, s);
    assert forall|i: int| 0 <= i < n implies extract_ok(len, i, s) by {
        lemma_chunk_start_in_range(len, s, i);
        lemma_chunk_len(data, s, i);
        if i == n - 1 {
            assert(chunk_spec(data, i, s).len() == s);
        }
    }
    lemma_concat_chunks_prefix(data, n, s);
    lemma_len_of_full_chunks(len, s);
    assert(data.subrange(0, len) =~= data);
}

/// When the length is a multiple of a positive chunk size, the chunks
/// cover it exactly: `num_chunks * s == len`.
proof fn lemma_len_of_full_chunks(len: int, s: int)
    requires
        s > 0,
        0 <= len,
        len % s == 0,
    ensures
        num_chunks(len, s) * s == len,
{
    vstd::arithmetic::div_mod::lemma_fundamental_div_mod(len, s);
    assert((len / s) * s == len) by (nonlinear_arith)
        requires len == s * (len / s) + len % s, len % s == 0,
    {
    }
}

/// Concatenating the first `m` chunks yields exactly the first `m * s`
/// bytes of the data.
proof fn lemma_concat_chunks_prefix(data: Seq<u8>, m: int, s: int)
    requires
        s > 0,
        0 <= m <= num_chunks(data.len() as int, s),
        data.len() % (s as nat) == 0,
    ensures
        m * s <= data.len(),
        concat_chunks(data, m, s) == data.subrange(0, m * s),
    decreases m,
{
    let len = data.len() as int;
    let n = num_chunks(len, s);
    lemma_len_of_full_chunks(len, s);
    assert(m * s <= n * s) by (nonlinear_arith)
        requires s > 0, m <= n,
    {
    }
    if m == 0 {
        assert(m * s == 0) by (nonlinear_arith)
            requires m == 0,
        {
        }
        assert(concat_chunks(data, 0, s) =~= data.subrange(0, 0));
    } else {
        lemma_concat_chunks_prefix(data, m - 1, s);
        lemma_chunk_start_in_range(len, s, m - 1);
        lemma_chunk_len(data, s, m - 1);
        assert((m - 1) * s + s == m * s) by (nonlinear_arith)
        {
        }
        assert(chunk_spec(data, m - 1, s) =~= data.subrange((m - 1) * s, m * s));
        assert(concat_chunks(data, m, s) =~= data.subrange(0, m * s));
    }
}

/// Fix idempotence law: overwriting chunk `k` of the data with the very
/// bytes extracted from chunk `k` leaves the data unchanged.
pub proof fn lemma_fix_round_trip(data: Seq<u8>, k: int, s: int)
    requires
        0 <= k,
        0 <= s,
        extract_ok(data.len() as int, k, s),
    ensures
        chunk_spec(data, k, s).len() == s,
        fix_spec(data, chunk_spec(data, k, s), k, s) == data,
{
    assert(0 <= k * s) by (nonlinear_arith)
        requires 0 <= k, 0 <= s,
    {
    }
    assert(fix_spec(data, chunk_spec(data, k, s), k, s) =~= data);
}

/// Boundary failure law: when the data's length is not a multiple of the
/// chunk size, the final chunk cannot be extracted — the extractor fails
/// rather than returning the truncated tail.
pub proof fn lemma_boundary_failure(data: Seq<u8>, s: int)
    requires
        s > 0,
        data.len() % (s as nat) != 0,
    ensures
        !extract_ok(data.len() as int, num_chunks(data.len() as int, s) - 1, s),
{
    let len = data.len() as int;
    let n = num_chunks(len, s);
    lemma_chunk_start_in_range(len, s, n - 1);
    lemma_chunk_len(data, s, n - 1);
    assert(chunk_spec(data, n - 1, s).len() < s);
}

} // verus!
