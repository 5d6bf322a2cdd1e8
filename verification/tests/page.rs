use page_heap::layout::{
    offset_of_block, PAGE_HEAP_BLOCK_COUNT, PAGE_HEAP_BLOCK_SIZE, PAGE_HEAP_HEADER_SIZE,
    PAGE_HEAP_MAX_BLOCKS, WASM_PAGE_SIZE,
};
use page_heap::page::PageHeap;

fn full_page() -> PageHeap {
    let mut page = PageHeap::new();
    for _ in 0..PAGE_HEAP_MAX_BLOCKS {
        assert!(page.allocate().is_some());
    }
    page
}

#[test]
fn fresh_page_has_no_block_allocated() {
    let page = PageHeap::new();
    assert_eq!(page.head(), 0);
    for index in 0..PAGE_HEAP_BLOCK_COUNT {
        assert!(!page.is_allocated(index));
    }
    assert!(!page.is_allocated(PAGE_HEAP_BLOCK_COUNT));
    assert!(!page.is_allocated(usize::MAX));
}

#[test]
fn find_free_on_fresh_page_starts_at_the_hint() {
    let page = PageHeap::new();
    assert_eq!(page.find_free(0), Some((0, 0)));
    assert_eq!(page.find_free(3), Some((3, 0)));
    assert_eq!(page.find_free(15), Some((15, 0)));
    assert_eq!(page.find_free(16), None);
    assert_eq!(page.find_free(usize::MAX), None);
}

#[test]
fn find_free_changes_nothing() {
    let page = PageHeap::new();
    assert_eq!(page.find_free(0), Some((0, 0)));
    assert_eq!(page.find_free(0), Some((0, 0)));
    assert!(!page.is_allocated(0));
    assert_eq!(page.head(), 0);
}

#[test]
fn find_free_returns_leftmost_clear_bit_of_first_word_with_one() {
    let mut page = PageHeap::new();
    for _ in 0..70 {
        page.allocate();
    }
    assert_eq!(page.find_free(0), Some((1, 6)));
    assert_eq!(page.find_free(1), Some((1, 6)));
    assert_eq!(page.find_free(2), Some((2, 0)));
    page.mark_free(3);
    assert_eq!(page.find_free(0), Some((0, 3)));
    assert_eq!(page.find_free(1), Some((1, 6)));
}

#[test]
fn find_free_passes_over_slots_without_a_block() {
    let page = full_page();
    assert_eq!(page.find_free(0), None);
    assert_eq!(page.find_free(15), None);
    for index in PAGE_HEAP_MAX_BLOCKS..PAGE_HEAP_BLOCK_COUNT {
        assert!(!page.is_allocated(index));
    }
}

#[test]
fn mark_allocated_sets_the_bit_and_moves_the_cursor() {
    let mut page = PageHeap::new();
    page.mark_allocated(0, 5);
    assert!(page.is_allocated(5));
    assert!(!page.is_allocated(4));
    assert!(!page.is_allocated(6));
    assert_eq!(page.head(), 0);
    for _ in 0..63 {
        page.allocate();
    }
    assert_eq!(page.find_free(0), Some((1, 0)));
    page.mark_allocated(1, 9);
    assert!(page.is_allocated(64 + 9));
    assert!(!page.is_allocated(64));
    assert_eq!(page.head(), 1);
}

#[test]
fn mark_allocated_twice_is_the_same_as_once() {
    let mut page = PageHeap::new();
    page.mark_allocated(0, 0);
    page.mark_allocated(0, 0);
    assert!(page.is_allocated(0));
    assert_eq!(page.allocate(), Some(offset_of_block(1)));
}

#[test]
fn mark_free_clears_the_bit_and_takes_the_cursor_back() {
    let mut page = PageHeap::new();
    for _ in 0..130 {
        page.allocate();
    }
    assert_eq!(page.head(), 2);
    page.mark_free(129);
    assert!(!page.is_allocated(129));
    assert!(page.is_allocated(128));
    assert_eq!(page.head(), 2);
    page.mark_free(70);
    assert_eq!(page.head(), 1);
    page.mark_free(100);
    assert_eq!(page.head(), 1);
    page.mark_free(5);
    assert_eq!(page.head(), 0);
    page.mark_free(127);
    assert_eq!(page.head(), 0);
    assert_eq!(page.allocate(), Some(offset_of_block(5)));
    assert_eq!(page.allocate(), Some(offset_of_block(70)));
    assert_eq!(page.head(), 1);
}

#[test]
fn mark_free_of_a_slot_without_block_changes_no_block() {
    let mut page = full_page();
    page.mark_free(PAGE_HEAP_BLOCK_COUNT - 1);
    assert_eq!(page.allocate(), None);
    for index in 0..PAGE_HEAP_MAX_BLOCKS {
        assert!(page.is_allocated(index));
    }
}

#[test]
fn page_hands_out_blocks_in_order_until_full() {
    let mut page = PageHeap::new();
    let mut offsets = Vec::new();
    for index in 0..PAGE_HEAP_MAX_BLOCKS {
        let offset = page.allocate().unwrap();
        assert_eq!(offset, PAGE_HEAP_HEADER_SIZE + index * PAGE_HEAP_BLOCK_SIZE);
        assert_eq!(page.head(), index / 64);
        offsets.push(offset);
    }
    assert_eq!(page.allocate(), None);
    for pair in offsets.windows(2) {
        assert!(pair[0] + PAGE_HEAP_BLOCK_SIZE <= pair[1]);
    }
    for offset in offsets {
        assert_eq!((offset - PAGE_HEAP_HEADER_SIZE) % PAGE_HEAP_BLOCK_SIZE, 0);
    }
}

#[test]
fn page_never_hands_out_a_block_past_its_end() {
    let mut page = PageHeap::new();
    let limit = WASM_PAGE_SIZE - PAGE_HEAP_BLOCK_SIZE;
    let mut count = 0;
    while let Some(offset) = page.allocate() {
        assert!(offset >= PAGE_HEAP_HEADER_SIZE);
        assert!(offset <= limit);
        count += 1;
    }
    assert_eq!(count, 1021);
    for _ in 0..5 {
        assert_eq!(page.allocate(), None);
    }
    assert_eq!(page.head(), 15);
    for index in PAGE_HEAP_MAX_BLOCKS..PAGE_HEAP_BLOCK_COUNT {
        assert!(!page.is_allocated(index));
    }
}

#[test]
fn full_page_reuses_the_freed_block() {
    let mut page = full_page();
    for index in [0, 1, 63, 64, 500, 959, 960, 1020] {
        page.dealloc(offset_of_block(index));
        assert!(!page.is_allocated(index));
        assert_eq!(page.allocate(), Some(offset_of_block(index)));
        assert!(page.is_allocated(index));
        assert_eq!(page.allocate(), None);
    }
}

#[test]
fn lowest_freed_block_comes_first() {
    let mut page = full_page();
    page.dealloc(offset_of_block(700));
    page.dealloc(offset_of_block(300));
    page.dealloc(offset_of_block(900));
    assert_eq!(page.allocate(), Some(offset_of_block(300)));
    assert_eq!(page.allocate(), Some(offset_of_block(700)));
    assert_eq!(page.allocate(), Some(offset_of_block(900)));
    assert_eq!(page.allocate(), None);
}

#[test]
fn dealloc_takes_the_cursor_back_to_the_word_of_the_block() {
    let mut page = full_page();
    assert_eq!(page.head(), 15);
    page.dealloc(offset_of_block(1000));
    assert_eq!(page.head(), 15);
    page.dealloc(offset_of_block(200));
    assert_eq!(page.head(), 3);
    page.dealloc(offset_of_block(640));
    assert_eq!(page.head(), 3);
    page.dealloc(offset_of_block(63));
    assert_eq!(page.head(), 0);
}

#[test]
fn dealloc_frees_the_block_that_holds_the_offset() {
    let mut page = full_page();
    page.dealloc(offset_of_block(3) + 17);
    assert!(!page.is_allocated(3));
    assert!(page.is_allocated(2));
    assert!(page.is_allocated(4));
    page.dealloc(offset_of_block(4) + 63);
    assert!(!page.is_allocated(4));
    assert!(page.is_allocated(5));
}

#[test]
fn dealloc_of_a_free_block_changes_no_block() {
    let mut page = PageHeap::new();
    page.allocate();
    page.allocate();
    page.dealloc(offset_of_block(7));
    page.dealloc(offset_of_block(0));
    page.dealloc(offset_of_block(0));
    assert!(!page.is_allocated(0));
    assert!(page.is_allocated(1));
    assert!(!page.is_allocated(7));
    assert_eq!(page.allocate(), Some(offset_of_block(0)));
    assert_eq!(page.allocate(), Some(offset_of_block(2)));
}

#[test]
fn dealloc_of_the_last_bytes_of_the_page_changes_no_block() {
    let mut page = full_page();
    page.dealloc(WASM_PAGE_SIZE - 1);
    assert_eq!(page.allocate(), None);
    assert!(page.is_allocated(PAGE_HEAP_MAX_BLOCKS - 1));
}

#[test]
fn cursor_never_hides_a_free_block() {
    let mut page = PageHeap::new();
    for _ in 0..200 {
        page.allocate();
    }
    assert_eq!(page.head(), 3);
    page.dealloc(offset_of_block(10));
    assert_eq!(page.head(), 0);
    assert_eq!(page.allocate(), Some(offset_of_block(10)));
    assert_eq!(page.allocate(), Some(offset_of_block(200)));
    assert_eq!(page.head(), 3);
    page.dealloc(offset_of_block(199));
    page.dealloc(offset_of_block(64));
    assert_eq!(page.head(), 1);
    assert_eq!(page.allocate(), Some(offset_of_block(64)));
    assert_eq!(page.allocate(), Some(offset_of_block(199)));
    assert_eq!(page.allocate(), Some(offset_of_block(201)));
}
