use page_heap::bits::{FREE_MASK, FULL_WORD};
use page_heap::layout::{
    offset_of_block, GROW_FAILED, PAGE_HEAP_BLOCK_COUNT, PAGE_HEAP_BLOCK_SIZE,
    PAGE_HEAP_FREE_LIST_COUNT, PAGE_HEAP_HEADER_SIZE, PAGE_HEAP_MAX_BLOCKS, WASM_MAX_PAGES,
    WASM_PAGE_SIZE,
};

#[test]
fn constants_describe_one_page() {
    assert_eq!(WASM_PAGE_SIZE, 65536);
    assert_eq!(WASM_MAX_PAGES, 65536);
    assert_eq!(PAGE_HEAP_BLOCK_SIZE, 64);
    assert_eq!(PAGE_HEAP_BLOCK_COUNT, WASM_PAGE_SIZE / PAGE_HEAP_BLOCK_SIZE);
    assert_eq!(PAGE_HEAP_FREE_LIST_COUNT, PAGE_HEAP_BLOCK_COUNT / 64);
    assert_eq!(PAGE_HEAP_HEADER_SIZE, PAGE_HEAP_FREE_LIST_COUNT * 8 + 8);
    assert_eq!(
        PAGE_HEAP_MAX_BLOCKS,
        (WASM_PAGE_SIZE - PAGE_HEAP_HEADER_SIZE) / PAGE_HEAP_BLOCK_SIZE
    );
    assert_eq!(PAGE_HEAP_MAX_BLOCKS, 1021);
    assert_eq!(GROW_FAILED, usize::MAX);
}

#[test]
fn masks_count_from_the_most_significant_bit() {
    assert_eq!(FREE_MASK, 1u64 << 63);
    assert_eq!(FREE_MASK >> 63, 1);
    assert_eq!(FULL_WORD, u64::MAX);
}

#[test]
fn offset_of_block_adds_header_and_whole_blocks() {
    assert_eq!(offset_of_block(0), 136);
    assert_eq!(offset_of_block(1), 200);
    assert_eq!(offset_of_block(64), 136 + 4096);
    assert_eq!(offset_of_block(1020), 65416);
    assert_eq!(offset_of_block(1023), 65608);
}

#[test]
fn last_block_is_the_last_that_ends_within_the_page() {
    let limit = WASM_PAGE_SIZE - PAGE_HEAP_BLOCK_SIZE;
    assert!(offset_of_block(PAGE_HEAP_MAX_BLOCKS - 1) <= limit);
    assert!(offset_of_block(PAGE_HEAP_MAX_BLOCKS) > limit);
}
