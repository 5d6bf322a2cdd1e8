//! The geometry of a page: sizes, counts, and the arithmetic between block
//! indices, byte offsets within a page, and addresses.

use vstd::prelude::*;

verus! {

/// The size of a page in bytes.
pub const WASM_PAGE_SIZE: usize = 65536;

/// The largest number of pages the address space can hold.
pub const WASM_MAX_PAGES: usize = 65536;

/// What the host answers to a request for more pages that it cannot grant.
pub const GROW_FAILED: usize = usize::MAX;

/// The size of a block in bytes.
pub const PAGE_HEAP_BLOCK_SIZE: usize = 64;

/// The number of bits in the bitmap of a page, one per block slot.
pub const PAGE_HEAP_BLOCK_COUNT: usize = 1024;

/// The number of 64-bit words in the bitmap of a page.
pub const PAGE_HEAP_FREE_LIST_COUNT: usize = 16;

/// The size in bytes of the header at the start of each page: the bitmap
/// words followed by the scan cursor, padded to the alignment of a word.
pub const PAGE_HEAP_HEADER_SIZE: usize = 136;

/// The number of blocks that fit in a page behind its header.
pub const PAGE_HEAP_MAX_BLOCKS: usize = 1021;

/// The byte offset within its page of the block with index `index`.
pub open spec fn block_offset(index: int) -> int {
    PAGE_HEAP_HEADER_SIZE + index * PAGE_HEAP_BLOCK_SIZE
}

/// The index of the block that holds the byte at `offset` within its page.
pub open spec fn block_index(offset: int) -> int {
    (offset - PAGE_HEAP_HEADER_SIZE) / (PAGE_HEAP_BLOCK_SIZE as int)
}

/// The index of the page that holds the byte at `address`.
pub open spec fn page_of(address: int) -> int {
    address / (WASM_PAGE_SIZE as int)
}

/// The byte offset of `address` within its page.
pub open spec fn offset_in_page(address: int) -> int {
    address % (WASM_PAGE_SIZE as int)
}

/// The address of block `block` of page `page`.
pub open spec fn block_address(page: int, block: int) -> int {
    page * WASM_PAGE_SIZE + block_offset(block)
}

/// Computes the byte offset of a block slot within its page.
pub fn offset_of_block(index: usize) -> (offset: usize)
    requires
        block_offset(index as int) <= usize::MAX,
    ensures
        offset == block_offset(index as int),
{
    PAGE_HEAP_HEADER_SIZE + index * PAGE_HEAP_BLOCK_SIZE
}

/// A block of a page lies behind the page's header and within the page, at a
/// whole number of blocks from the end of the header, and its address
/// determines its page and its index.
pub proof fn lemma_block_in_page(page: int, block: int)
    requires
        0 <= page,
        0 <= block < PAGE_HEAP_MAX_BLOCKS,
    ensures
        page * WASM_PAGE_SIZE + PAGE_HEAP_HEADER_SIZE <= block_address(page, block),
        block_address(page, block) + PAGE_HEAP_BLOCK_SIZE <= (page + 1) * WASM_PAGE_SIZE,
        block_offset(block) <= WASM_PAGE_SIZE - PAGE_HEAP_BLOCK_SIZE,
        (block_offset(block) - PAGE_HEAP_HEADER_SIZE) % (PAGE_HEAP_BLOCK_SIZE as int) == 0,
        page_of(block_address(page, block)) == page,
        offset_in_page(block_address(page, block)) == block_offset(block),
        block_index(block_offset(block)) == block,
{
}

/// Two different blocks share no byte.
pub proof fn lemma_blocks_disjoint(page1: int, block1: int, page2: int, block2: int)
    requires
        0 <= page1,
        0 <= page2,
        0 <= block1 < PAGE_HEAP_MAX_BLOCKS,
        0 <= block2 < PAGE_HEAP_MAX_BLOCKS,
        page1 != page2 || block1 != block2,
    ensures
        block_address(page1, block1) + PAGE_HEAP_BLOCK_SIZE <= block_address(page2, block2)
            || block_address(page2, block2) + PAGE_HEAP_BLOCK_SIZE <= block_address(
            page1,
            block1,
        ),
{
}

/// The first slot without a block behind it is the first whose block would
/// end past the end of the page.
pub proof fn lemma_max_blocks(index: int)
    requires
        0 <= index,
    ensures
        index < PAGE_HEAP_MAX_BLOCKS <==> block_offset(index) <= WASM_PAGE_SIZE
            - PAGE_HEAP_BLOCK_SIZE,
{
}

} // verus!
