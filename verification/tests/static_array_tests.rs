use wee_alloc_bw::static_array::{alloc_bytes, alloc_pages, SCRATCH_LEN_BYTES};
use wee_alloc_bw::AllocErr;

#[test]
fn test_alloc_pages_exact_fit() {
    // Start from a clean state.
    let mut offset: usize = 0;

    let scratch_len = SCRATCH_LEN_BYTES;

    // 1 Page = 65536 bytes on wasm32.
    let bytes_per_page = 65536;
    let max_pages = scratch_len / bytes_per_page;

    if max_pages == 0 {
        // Scratch heap too small for even one page, skip.
        return;
    }

    let result = alloc_pages(&mut offset, scratch_len, max_pages);

    assert!(
        result.is_ok(),
        "Exact fit allocation failed! scratch_len: {}, max_pages: {}",
        scratch_len,
        max_pages
    );
}

#[test]
fn alloc_bytes_exact_fit_then_full() {
    let mut offset: usize = 0;
    assert_eq!(alloc_bytes(&mut offset, SCRATCH_LEN_BYTES, SCRATCH_LEN_BYTES), Ok(0));
    assert_eq!(offset, SCRATCH_LEN_BYTES);
    assert_eq!(alloc_bytes(&mut offset, SCRATCH_LEN_BYTES, 1), Err(AllocErr::new()));
    assert_eq!(offset, SCRATCH_LEN_BYTES);
    assert_eq!(alloc_bytes(&mut offset, SCRATCH_LEN_BYTES, 0), Ok(SCRATCH_LEN_BYTES));
}

#[test]
fn alloc_bytes_regions_do_not_overlap() {
    let mut offset: usize = 0;
    let a = alloc_bytes(&mut offset, 100, 40).unwrap();
    let b = alloc_bytes(&mut offset, 100, 50).unwrap();
    assert_eq!(a, 0);
    assert_eq!(b, 40);
    assert!(a + 40 <= b);
    assert_eq!(offset, 90);
    assert_eq!(alloc_bytes(&mut offset, 100, 11), Err(AllocErr));
    assert_eq!(offset, 90);
    assert_eq!(alloc_bytes(&mut offset, 100, 10), Ok(90));
    assert_eq!(offset, 100);
}

#[test]
fn alloc_bytes_overflowing_end_fails() {
    let mut offset: usize = 10;
    assert_eq!(alloc_bytes(&mut offset, usize::MAX, usize::MAX), Err(AllocErr));
    assert_eq!(offset, 10);
}

#[test]
fn alloc_pages_converts_pages_to_bytes() {
    let mut offset: usize = 0;
    assert_eq!(alloc_pages(&mut offset, SCRATCH_LEN_BYTES, 1), Ok(0));
    assert!(offset == 4096 || offset == 65536);
    let page = offset;
    assert_eq!(alloc_pages(&mut offset, SCRATCH_LEN_BYTES, 3), Ok(page));
    assert_eq!(offset, 4 * page);
}

#[test]
fn alloc_pages_too_many_fails() {
    let mut offset: usize = 0;
    let pages = SCRATCH_LEN_BYTES / 4096 + 1;
    assert_eq!(alloc_pages(&mut offset, SCRATCH_LEN_BYTES, pages), Err(AllocErr));
    assert_eq!(offset, 0);
}
