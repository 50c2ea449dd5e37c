//! Chunk geometry: how a payload is cut into aligned byte ranges.
//!
//! Every chunk but the last is exactly one chunk-size factor long. The
//! ranges are contiguous, do not overlap, and together cover the payload.

use crate::buffer::{contents, copy_range};
use bytes::Bytes;
use vstd::prelude::*;

verus! {

/// Number of chunks that a payload of `total` bytes is cut into: `total`
/// divided by `factor`, rounded up.
pub open spec fn chunk_count(total: nat, factor: nat) -> nat
    recommends
        factor > 0,
{
    ((total + factor - 1) / (factor as int)) as nat
}

/// Offset of the first byte of chunk `index`.
pub open spec fn chunk_start(index: nat, factor: nat) -> nat {
    index * factor
}

/// Offset one past the last byte of the chunk that starts at `start`.
pub open spec fn chunk_limit(start: nat, total: nat, factor: nat) -> nat
    recommends
        start < total,
{
    if total - start <= factor {
        total
    } else {
        start + factor
    }
}

/// Offset of the last byte of chunk `index` (inclusive).
pub open spec fn chunk_end(index: nat, total: nat, factor: nat) -> int
    recommends
        factor > 0,
        index < chunk_count(total, factor),
{
    chunk_limit(chunk_start(index, factor), total, factor) - 1
}

/// Number of bytes in chunk `index`.
pub open spec fn chunk_len(index: nat, total: nat, factor: nat) -> int
    recommends
        factor > 0,
        index < chunk_count(total, factor),
{
    chunk_end(index, total, factor) - chunk_start(index, factor) + 1
}

/// The bytes of chunk `index` of `data`.
pub open spec fn chunk_bytes(data: Seq<u8>, index: nat, factor: nat) -> Seq<u8>
    recommends
        factor > 0,
        index < chunk_count(data.len(), factor),
{
    data.subrange(
        chunk_start(index, factor) as int,
        chunk_end(index, data.len(), factor) + 1,
    )
}

/// One framed piece of a payload: an inclusive byte range out of a total
/// declared length, and the bytes of that range.
#[derive(Debug, PartialEq, Eq)]
pub struct Chunk {
    pub start: usize,
    pub end: usize,
    pub total: usize,
    pub payload: Bytes,
}

impl Chunk {
    /// The range lies inside the declared length and the payload fills it.
    pub open spec fn wf(&self) -> bool {
        &&& self.start <= self.end
        &&& self.end < self.total
        &&& contents(self.payload).len() == self.end - self.start + 1
    }

    /// This is chunk `index` of `data` under `factor`.
    pub open spec fn is_chunk_of(&self, data: Seq<u8>, index: nat, factor: nat) -> bool {
        &&& self.start == chunk_start(index, factor)
        &&& self.end == chunk_end(index, data.len(), factor)
        &&& self.total == data.len()
        &&& contents(self.payload) == chunk_bytes(data, index, factor)
    }

    /// This is the chunk of `data` that starts at offset `start`.
    pub open spec fn starts_at(&self, data: Seq<u8>, start: nat, factor: nat) -> bool {
        &&& self.start == start
        &&& self.end == chunk_limit(start, data.len(), factor) - 1
        &&& self.total == data.len()
        &&& contents(self.payload) == data.subrange(
            start as int,
            chunk_limit(start, data.len(), factor) as int,
        )
    }
}

/// Concatenation of the first `count` chunks of `data`.
pub open spec fn joined_chunks(data: Seq<u8>, factor: nat, count: nat) -> Seq<u8>
    decreases count,
{
    if count == 0 {
        Seq::empty()
    } else {
        joined_chunks(data, factor, (count - 1) as nat) + chunk_bytes(
            data,
            (count - 1) as nat,
            factor,
        )
    }
}

/// Concatenation of the payloads of `chunks`, in the order of the sequence.
pub open spec fn joined_payloads(chunks: Seq<Chunk>) -> Seq<u8>
    decreases chunks.len(),
{
    if chunks.len() == 0 {
        Seq::empty()
    } else {
        joined_payloads(chunks.drop_last()) + contents(chunks.last().payload)
    }
}

/// `chunks` is the whole partition of `data` under `factor`, in ascending
/// offset order.
pub open spec fn is_partition_of(chunks: Seq<Chunk>, data: Seq<u8>, factor: nat) -> bool {
    &&& chunks.len() == chunk_count(data.len(), factor)
    &&& forall|i: int|
        0 <= i < chunks.len() ==> (#[trigger] chunks[i]).is_chunk_of(data, i as nat, factor)
}

/// The chunk count is the least number of factor-sized ranges that cover
/// `total` bytes.
pub proof fn lemma_chunk_count_bounds(total: nat, factor: nat)
    requires
        factor > 0,
    ensures
        total == 0 <==> chunk_count(total, factor) == 0,
        (chunk_count(total, factor) - 1) * factor < total,
        total <= chunk_count(total, factor) * factor,
{
    let x: int = total + factor - 1;
    let f: int = factor as int;
    let n: int = x / f;
    assert(0 <= n && f * n <= x < f * n + f && (x < f ==> n == 0) && (x >= f ==> n >= 1))
        by (nonlinear_arith)
        requires
            n == x / f,
            f > 0,
            x >= 0,
    ;
    assert((n - 1) * f == f * n - f && n * f == f * n) by (nonlinear_arith);
}

/// A number of chunks that just covers `total` is the chunk count.
pub proof fn lemma_chunk_count_unique(total: nat, factor: nat, count: nat)
    requires
        factor > 0,
        (count - 1) * factor < total,
        total <= count * factor,
    ensures
        count == chunk_count(total, factor),
{
    lemma_chunk_count_bounds(total, factor);
    let n: int = chunk_count(total, factor) as int;
    let c: int = count as int;
    let f: int = factor as int;
    assert(c == n) by (nonlinear_arith)
        requires
            f > 0,
            (c - 1) * f < total,
            total <= c * f,
            (n - 1) * f < total,
            total <= n * f,
    ;
}

/// Where each chunk lies: chunk `index` starts inside the payload; every
/// chunk but the last ends where the next one starts; the last one ends
/// with the payload.
pub proof fn lemma_chunk_range(index: nat, total: nat, factor: nat)
    requires
        factor > 0,
        index < chunk_count(total, factor),
    ensures
        chunk_start(index, factor) < total,
        chunk_start(index, factor) <= chunk_end(index, total, factor) < total,
        index + 1 < chunk_count(total, factor) ==> chunk_end(index, total, factor) + 1
            == chunk_start(index + 1, factor),
        index + 1 == chunk_count(total, factor) ==> chunk_end(index, total, factor) + 1 == total,
{
    lemma_chunk_count_bounds(total, factor);
    let n: int = chunk_count(total, factor) as int;
    let i: int = index as int;
    let f: int = factor as int;
    assert(i * f <= (n - 1) * f && (i + 1) * f == i * f + f) by (nonlinear_arith)
        requires
            0 <= i <= n - 1,
            f > 0,
    ;
    if index + 1 < n {
        assert((i + 1) * f <= (n - 1) * f) by (nonlinear_arith)
            requires
                i + 1 <= n - 1,
                f > 0,
        ;
    } else {
        assert((i + 1) * f == n * f);
    }
}

/// Every chunk except the last is exactly one factor long; the last one
/// holds what is left over after the others.
pub proof fn lemma_chunk_lengths(index: nat, total: nat, factor: nat)
    requires
        factor > 0,
        index < chunk_count(total, factor),
    ensures
        index + 1 < chunk_count(total, factor) ==> chunk_len(index, total, factor) == factor,
        index + 1 == chunk_count(total, factor) ==> chunk_len(index, total, factor) == total
            - factor * (chunk_count(total, factor) - 1),
        1 <= chunk_len(index, total, factor) <= factor,
{
    lemma_chunk_range(index, total, factor);
    lemma_chunk_count_bounds(total, factor);
    let n: int = chunk_count(total, factor) as int;
    let i: int = index as int;
    let f: int = factor as int;
    assert((i + 1) * f == i * f + f && f * (n - 1) == (n - 1) * f) by (nonlinear_arith);
}

/// An aligned offset inside the payload is the start of the chunk whose
/// index is the offset divided by the factor.
pub proof fn lemma_offset_is_chunk_start(offset: nat, total: nat, factor: nat)
    requires
        factor > 0,
        offset < total,
        offset % factor == 0,
    ensures
        offset / factor < chunk_count(total, factor),
        chunk_start(offset / factor, factor) == offset,
{
    lemma_chunk_count_bounds(total, factor);
    let n: int = chunk_count(total, factor) as int;
    let o: int = offset as int;
    let f: int = factor as int;
    let q: int = o / f;
    assert(q * f == o && q >= 0) by (nonlinear_arith)
        requires
            q == o / f,
            o % f == 0,
            f > 0,
            o >= 0,
    ;
    assert(q < n) by (nonlinear_arith)
        requires
            q * f < n * f,
            f > 0,
    ;
}

/// The first `count` chunks, joined in ascending offset order, are the
/// payload up to where chunk `count` starts.
pub proof fn lemma_joined_prefix(data: Seq<u8>, factor: nat, count: nat)
    requires
        factor > 0,
        count <= chunk_count(data.len(), factor),
    ensures
        count < chunk_count(data.len(), factor) ==> joined_chunks(data, factor, count)
            == data.subrange(0, chunk_start(count, factor) as int),
        count == chunk_count(data.len(), factor) ==> joined_chunks(data, factor, count) == data,
    decreases count,
{
    if count == 0 {
        lemma_chunk_count_bounds(data.len(), factor);
        assert(chunk_start(0, factor) == 0) by (nonlinear_arith);
        assert(data.subrange(0, 0) =~= Seq::<u8>::empty());
        assert(chunk_count(data.len(), factor) == 0 ==> data =~= Seq::<u8>::empty());
    } else {
        let prev: nat = (count - 1) as nat;
        lemma_joined_prefix(data, factor, prev);
        lemma_chunk_range(prev, data.len(), factor);
        let a: int = chunk_start(prev, factor) as int;
        let b: int = chunk_end(prev, data.len(), factor) + 1;
        assert(data.subrange(0, a) + data.subrange(a, b) =~= data.subrange(0, b));
        assert(data.subrange(0, data.len() as int) =~= data);
    }
}

/// Joining all chunks of a payload in ascending offset order gives back
/// the payload.
pub proof fn lemma_chunks_reassemble(data: Seq<u8>, factor: nat)
    requires
        factor > 0,
    ensures
        joined_chunks(data, factor, chunk_count(data.len(), factor)) == data,
{
    lemma_joined_prefix(data, factor, chunk_count(data.len(), factor));
}

/// The payloads of a partition, joined in order, are the payload.
pub proof fn lemma_partition_reassembles(chunks: Seq<Chunk>, data: Seq<u8>, factor: nat)
    requires
        factor > 0,
        is_partition_of(chunks, data, factor),
    ensures
        joined_payloads(chunks) == data,
{
    lemma_payloads_are_chunks(chunks, data, factor, chunks.len());
    assert(chunks.take(chunks.len() as int) =~= chunks);
    lemma_chunks_reassemble(data, factor);
}

proof fn lemma_payloads_are_chunks(chunks: Seq<Chunk>, data: Seq<u8>, factor: nat, count: nat)
    requires
        count <= chunks.len(),
        forall|i: int|
            0 <= i < chunks.len() ==> (#[trigger] chunks[i]).is_chunk_of(data, i as nat, factor),
    ensures
        joined_payloads(chunks.take(count as int)) == joined_chunks(data, factor, count),
    decreases count,
{
    let head = chunks.take(count as int);
    if count > 0 {
        lemma_payloads_are_chunks(chunks, data, factor, (count - 1) as nat);
        assert(head.drop_last() =~= chunks.take(count - 1));
        assert(head.last() == chunks[count - 1]);
    }
}

/// Cuts the chunk that starts at `offset` out of `payload`.
pub fn chunk_at(payload: &Bytes, offset: usize, factor: usize) -> (c: Chunk)
    requires
        factor > 0,
        offset < contents(*payload).len(),
    ensures
        c.starts_at(contents(*payload), offset as nat, factor as nat),
        c.wf(),
{
    let total: usize = payload.len();
    let limit: usize = if total - offset <= factor {
        total
    } else {
        offset + factor
    };
    Chunk { start: offset, end: limit - 1, total, payload: copy_range(payload, offset, limit) }
}

/// Cuts `payload` into all its chunks, in ascending offset order.
pub fn partition(payload: &Bytes, factor: usize) -> (chunks: Vec<Chunk>)
    requires
        factor > 0,
    ensures
        is_partition_of(chunks@, contents(*payload), factor as nat),
        joined_payloads(chunks@) == contents(*payload),
        forall|i: int| 0 <= i < chunks@.len() ==> (#[trigger] chunks@[i]).wf(),
{
    let total: usize = payload.len();
    let ghost data = contents(*payload);
    let mut chunks: Vec<Chunk> = Vec::new();
    let mut offset: usize = 0;
    proof {
        assert(chunk_start(0, factor as nat) == 0) by (nonlinear_arith);
    }
    while offset < total
        invariant
            factor > 0,
            total == data.len(),
            data == contents(*payload),
            offset <= total,
            offset < total ==> offset == chunk_start(chunks@.len(), factor as nat),
            offset == total ==> (chunks@.len() - 1) * factor < total <= chunks@.len() * factor
                || (total == 0 && chunks@.len() == 0),
            chunks@.len() * factor <= total || offset == total,
            forall|i: int|
                0 <= i < chunks@.len() ==> (#[trigger] chunks@[i]).starts_at(
                    data,
                    chunk_start(i as nat, factor as nat),
                    factor as nat,
                ),
            forall|i: int| 0 <= i < chunks@.len() ==> (#[trigger] chunks@[i]).wf(),
        decreases total - offset,
    {
        let chunk = chunk_at(payload, offset, factor);
        let ghost k = chunks@.len() as int;
        let ghost f = factor as int;
        proof {
            assert((k + 1) * f == k * f + f && (k + 1 - 1) * f == k * f) by (nonlinear_arith);
        }
        offset = chunk.end + 1;
        chunks.push(chunk);
    }
    proof {
        let n = chunks@.len();
        if total > 0 {
            lemma_chunk_count_unique(total as nat, factor as nat, n);
        } else {
            lemma_chunk_count_bounds(0, factor as nat);
        }
        lemma_partition_reassembles(chunks@, data, factor as nat);
    }
    chunks
}

} // verus!
