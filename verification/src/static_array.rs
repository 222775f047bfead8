//! Page allocation out of a scratch heap of fixed length, by bumping an
//! offset that only grows.
use vstd::prelude::*;
use crate::AllocErr;

verus! {

/// The length of the scratch heap that is used when no other is configured:
/// 32 MiB.
pub const SCRATCH_LEN_BYTES: usize = 33554432;

/// The outcome of allocating `bytes` bytes at `offset` out of a scratch heap
/// of `scratch_len` bytes, and the offset after it: the region starting at
/// `offset` when it ends within the heap, the offset moved past it; an error
/// otherwise, the offset unchanged.
pub open spec fn bumped(offset: usize, scratch_len: usize, bytes: usize) -> (
    Result<usize, AllocErr>,
    usize,
) {
    if offset + bytes <= scratch_len {
        (Ok(offset), (offset + bytes) as usize)
    } else {
        (Err(AllocErr), offset)
    }
}

/// `memory_units`' conversion of a count of pages into bytes,
/// `Bytes::from(Pages(pages))`: the count times the byte size of a page.
/// That byte size is fixed by the compilation target, 65536 on wasm32 and
/// 4096 elsewhere; the contract claims only that it is one of the two, not
/// which. The conversion multiplies without checking, so the contract asks
/// that the product fit in a `usize` for both sizes.
#[verifier::external_body]
fn pages_to_bytes(pages: usize) -> (bytes: usize)
    requires
        pages * 65536 <= usize::MAX,
    ensures
        bytes == pages * 4096 || bytes == pages * 65536,
{
    let bytes: memory_units::Bytes = memory_units::Pages(pages).into();
    bytes.0
}

/// Takes `bytes` bytes out of the scratch heap of `scratch_len` bytes whose
/// first `*offset` bytes are in use: returns the start of the new region and
/// moves the offset past it when the region ends within the heap (an exact
/// fit included); fails and leaves the offset alone otherwise.
pub fn alloc_bytes(offset: &mut usize, scratch_len: usize, bytes: usize) -> (r: Result<
    usize,
    AllocErr,
>)
    ensures
        (r, *final(offset)) == bumped(*old(offset), scratch_len, bytes),
        r is Ok <==> *old(offset) + bytes <= scratch_len,
        r matches Ok(start) ==> start == *old(offset) && *final(offset) == *old(offset) + bytes,
        r is Err ==> *final(offset) == *old(offset),
{
    let start = *offset;
    match bytes.checked_add(start) {
        Some(end) => {
            if end <= scratch_len {
                *offset = end;
                Ok(start)
            } else {
                Err(AllocErr::new())
            }
        },
        None => Err(AllocErr::new()),
    }
}

/// Takes `pages` pages out of the scratch heap of `scratch_len` bytes whose
/// first `*offset` bytes are in use, as `alloc_bytes` takes their size in
/// bytes; a page is 4096 or 65536 bytes, as the compilation target fixes it.
pub fn alloc_pages(offset: &mut usize, scratch_len: usize, pages: usize) -> (r: Result<
    usize,
    AllocErr,
>)
    requires
        pages * 65536 <= usize::MAX,
    ensures
        (r, *final(offset)) == bumped(*old(offset), scratch_len, (pages * 4096) as usize) || (
        r,
        *final(offset),
    ) == bumped(*old(offset), scratch_len, (pages * 65536) as usize),
{
    let bytes = pages_to_bytes(pages);
    alloc_bytes(offset, scratch_len, bytes)
}

/// Allocation out of the scratch heap keeps the offset within the heap, never
/// moves it back, and hands out regions that lie within the heap and never
/// overlap: a region allocated after another starts at or past the end of
/// the other.
pub proof fn lemma_allocations_disjoint(
    offset: usize,
    scratch_len: usize,
    first: usize,
    second: usize,
)
    requires
        offset <= scratch_len,
    ensures
        ({
            let (r1, o1) = bumped(offset, scratch_len, first);
            let (r2, o2) = bumped(o1, scratch_len, second);
            &&& offset <= o1 <= o2 <= scratch_len
            &&& (r1 matches Ok(s1) ==> s1 + first <= o1 && s1 == offset)
            &&& (r1 matches Ok(s1) ==> (r2 matches Ok(s2) ==> s1 + first <= s2 && s2 + second
                <= scratch_len))
        }),
{
    let (r1, o1) = bumped(offset, scratch_len, first);
    if offset + first <= scratch_len {
        assert(o1 == offset + first);
    } else {
        assert(o1 == offset);
    }
    let (r2, o2) = bumped(o1, scratch_len, second);
    if o1 + second <= scratch_len {
        assert(o2 == o1 + second);
    } else {
        assert(o2 == o1);
    }
}

/// An allocation uses exactly its size: when two regions fit one after the
/// other in what is left of the heap, allocating both succeeds, the second
/// starts right where the first ends, and the offset ends up moved by their
/// sizes together.
pub proof fn lemma_allocation_exact(offset: usize, scratch_len: usize, first: usize, second: usize)
    requires
        offset + first + second <= scratch_len,
    ensures
        ({
            let (r1, o1) = bumped(offset, scratch_len, first);
            let (r2, o2) = bumped(o1, scratch_len, second);
            &&& r1 == Ok::<usize, AllocErr>(offset)
            &&& o1 == offset + first
            &&& r2 == Ok::<usize, AllocErr>((offset + first) as usize)
            &&& o2 == offset + first + second
        }),
{
}

} // verus!
