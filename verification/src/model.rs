//! The mathematical model of a heap: for each page the set of the indices of
//! its allocated blocks. This module says over that model what it is to
//! allocate and to free, and which addresses are live.

use crate::layout::{
    block_address, block_index, lemma_block_in_page, lemma_blocks_disjoint, offset_in_page,
    page_of, PAGE_HEAP_BLOCK_SIZE, PAGE_HEAP_HEADER_SIZE, PAGE_HEAP_MAX_BLOCKS, WASM_MAX_PAGES,
    WASM_PAGE_SIZE,
};
use crate::page::{first_blocks, is_first_free, is_full, lemma_first_free_unique};
use vstd::prelude::*;

verus! {

/// Whether `pages` can be the allocated blocks of the pages of a heap: the
/// pages fit in the address space, and only blocks of a page are allocated in
/// it.
pub open spec fn valid(pages: Seq<Set<int>>) -> bool {
    &&& pages.len() <= WASM_MAX_PAGES
    &&& forall|p: int, k: int|
        0 <= p < pages.len() && (#[trigger] pages[p].contains(k)) ==> 0 <= k < PAGE_HEAP_MAX_BLOCKS
}

/// Whether block `block` of page `page` is the first fit in `pages`: every
/// page before `page` is full, and `block` is the lowest free block of `page`.
/// The last line follows from the second; it names the two ends of the range
/// for the solver.
pub open spec fn is_first_fit(pages: Seq<Set<int>>, page: int, block: int) -> bool {
    &&& 0 <= page < pages.len()
    &&& forall|q: int| 0 <= q < page ==> is_full(#[trigger] pages[q])
    &&& is_first_free(pages[page], block)
    &&& 0 < page ==> is_full(pages[0]) && is_full(pages[page - 1])
}

/// Whether every page of `pages` is full. The last line follows from the one
/// before it; it names the two ends of the range for the solver.
pub open spec fn all_full(pages: Seq<Set<int>>) -> bool {
    &&& forall|q: int| 0 <= q < pages.len() ==> is_full(#[trigger] pages[q])
    &&& 0 < pages.len() ==> is_full(pages[0]) && is_full(pages[pages.len() - 1])
}

/// Whether `address` is the address of an allocated block of `pages`.
pub open spec fn is_live(pages: Seq<Set<int>>, address: int) -> bool {
    let page = page_of(address);
    let block = block_index(offset_in_page(address));
    &&& 0 <= page < pages.len()
    &&& pages[page].contains(block)
    &&& address == block_address(page, block)
}

/// The addresses of the allocated blocks of `pages`.
pub open spec fn live(pages: Seq<Set<int>>) -> Set<int> {
    Set::new(|address: int| is_live(pages, address))
}

/// Whether `after` is `before` with its first fit allocated, and `address` the
/// address of that block.
pub open spec fn fits(before: Seq<Set<int>>, after: Seq<Set<int>>, address: int) -> bool {
    let page = page_of(address);
    let block = block_index(offset_in_page(address));
    &&& address == block_address(page, block)
    &&& is_first_fit(before, page, block)
    &&& after == before.update(page, before[page].insert(block))
}

/// Whether `after` is `before` with one page appended and the first block of
/// that page allocated, and `address` the address of that block.
pub open spec fn grows(before: Seq<Set<int>>, after: Seq<Set<int>>, address: int) -> bool {
    &&& before.len() < WASM_MAX_PAGES
    &&& address == block_address(before.len() as int, 0)
    &&& after == before.push(set![0int])
}

/// Whether `after` is `before` with the block freed that holds the byte at
/// `address`, a byte of a page of the heap behind that page's header.
pub open spec fn frees(before: Seq<Set<int>>, after: Seq<Set<int>>, address: int) -> bool {
    let page = page_of(address);
    let block = block_index(offset_in_page(address));
    &&& 0 <= page < before.len()
    &&& offset_in_page(address) >= PAGE_HEAP_HEADER_SIZE
    &&& after == before.update(page, before[page].remove(block))
}

/// A heap has at most one first fit, and none if every page is full.
pub proof fn lemma_first_fit_unique(
    pages: Seq<Set<int>>,
    page: int,
    block: int,
    other_page: int,
    other_block: int,
)
    requires
        is_first_fit(pages, page, block),
    ensures
        !all_full(pages),
        is_first_fit(pages, other_page, other_block) ==> other_page == page && other_block
            == block,
{
    lemma_first_free_unique(pages[page], block, other_block);
    if is_first_fit(pages, other_page, other_block) && other_page != page {
        lemma_first_free_unique(pages[other_page], other_block, block);
    }
}

/// An allocation that fits hands out a block that was not live, at a whole
/// number of blocks behind the header of its page and within that page, and
/// makes it live; no other address becomes or ceases to be live.
pub proof fn lemma_fits(before: Seq<Set<int>>, after: Seq<Set<int>>, address: int)
    requires
        valid(before),
        fits(before, after, address),
    ensures
        valid(after),
        after.len() == before.len(),
        !all_full(before),
        !is_live(before, address),
        live(after) == live(before).insert(address),
        PAGE_HEAP_HEADER_SIZE <= offset_in_page(address) <= WASM_PAGE_SIZE - PAGE_HEAP_BLOCK_SIZE,
        (offset_in_page(address) - PAGE_HEAP_HEADER_SIZE) % (PAGE_HEAP_BLOCK_SIZE as int) == 0,
{
    let page = page_of(address);
    let block = block_index(offset_in_page(address));
    lemma_first_fit_unique(before, page, block, page, block);
    lemma_block_in_page(page, block);
    lemma_live_insert(before, page, block);
}

/// An allocation for which the heap has grown hands out the first block of
/// the new page, which was not live, and makes it live; no other address
/// becomes or ceases to be live.
pub proof fn lemma_grows(before: Seq<Set<int>>, after: Seq<Set<int>>, address: int)
    requires
        valid(before),
        grows(before, after, address),
    ensures
        valid(after),
        after.len() == before.len() + 1,
        page_of(address) == before.len(),
        offset_in_page(address) == PAGE_HEAP_HEADER_SIZE,
        !is_live(before, address),
        live(after) == live(before).insert(address),
{
    let grown = before.push(Set::<int>::empty());
    lemma_block_in_page(before.len() as int, 0);
    lemma_live_push(before);
    lemma_live_insert(grown, before.len() as int, 0);
}

/// Freeing takes the address of the freed block, and no other, from the live
/// addresses.
pub proof fn lemma_frees(before: Seq<Set<int>>, after: Seq<Set<int>>, address: int)
    requires
        valid(before),
        frees(before, after, address),
    ensures
        valid(after),
        after.len() == before.len(),
        live(after) == live(before).remove(
            block_address(page_of(address), block_index(offset_in_page(address))),
        ),
        is_live(before, address) ==> live(after) == live(before).remove(address),
{
    lemma_live_remove(before, page_of(address), block_index(offset_in_page(address)));
}

/// A fresh page is filled in the order of its blocks' addresses: in a heap
/// whose other pages are full and whose last page holds its first `n` blocks,
/// the next allocation fits block `n` of the last page, and once the page
/// holds all its blocks every page is full.
pub proof fn lemma_fill_in_order(pages: Seq<Set<int>>, n: int)
    requires
        valid(pages),
        pages.len() > 0,
        0 <= n <= PAGE_HEAP_MAX_BLOCKS,
        forall|q: int| 0 <= q < pages.len() - 1 ==> is_full(#[trigger] pages[q]),
        pages[pages.len() - 1] == first_blocks(n),
    ensures
        n < PAGE_HEAP_MAX_BLOCKS ==> fits(
            pages,
            pages.update(pages.len() - 1, first_blocks(n + 1)),
            block_address(pages.len() - 1, n),
        ),
        n == PAGE_HEAP_MAX_BLOCKS ==> all_full(pages),
{
    crate::page::lemma_fill_in_order(n);
    if n < PAGE_HEAP_MAX_BLOCKS {
        lemma_block_in_page(pages.len() - 1, n);
    }
}

/// Reuse comes before growth: once a block is freed, not every page is full,
/// and the first fit is that block or a block at a lower address.
pub proof fn lemma_freed_block_is_reused(
    pages: Seq<Set<int>>,
    page: int,
    block: int,
    p: int,
    k: int,
)
    requires
        valid(pages),
        0 <= page < pages.len(),
        0 <= block < PAGE_HEAP_MAX_BLOCKS,
        is_first_fit(pages.update(page, pages[page].remove(block)), p, k),
    ensures
        !all_full(pages.update(page, pages[page].remove(block))),
        block_address(p, k) <= block_address(page, block),
        all_full(pages) ==> p == page && k == block,
{
    let after = pages.update(page, pages[page].remove(block));
    assert(!after[page].contains(block));
    if p == page {
        crate::page::lemma_freed_block_is_reused(pages[page], block, k);
    }
}

/// Allocating a block adds its address, and no other, to the live addresses.
pub proof fn lemma_live_insert(pages: Seq<Set<int>>, page: int, block: int)
    requires
        valid(pages),
        0 <= page < pages.len(),
        0 <= block < PAGE_HEAP_MAX_BLOCKS,
    ensures
        valid(pages.update(page, pages[page].insert(block))),
        is_live(pages, block_address(page, block)) == pages[page].contains(block),
        live(pages.update(page, pages[page].insert(block))) == live(pages).insert(
            block_address(page, block),
        ),
{
    let after = pages.update(page, pages[page].insert(block));
    lemma_block_in_page(page, block);
    assert forall|a: int| is_live(after, a) == (a == block_address(page, block) || is_live(
        pages,
        a,
    )) by {
        let p = page_of(a);
        let k = block_index(offset_in_page(a));
        if 0 <= p < pages.len() && a == block_address(p, k) && after[p].contains(k) {
            lemma_block_in_page(p, k);
        }
    }
}

/// Freeing a block takes its address, and no other, from the live addresses.
pub proof fn lemma_live_remove(pages: Seq<Set<int>>, page: int, block: int)
    requires
        valid(pages),
        0 <= page < pages.len(),
        0 <= block <= PAGE_HEAP_MAX_BLOCKS,
    ensures
        valid(pages.update(page, pages[page].remove(block))),
        live(pages.update(page, pages[page].remove(block))) == live(pages).remove(
            block_address(page, block),
        ),
{
    let after = pages.update(page, pages[page].remove(block));
    assert forall|a: int| is_live(after, a) == (a != block_address(page, block) && is_live(
        pages,
        a,
    )) by {
        let p = page_of(a);
        let k = block_index(offset_in_page(a));
        if 0 <= p < pages.len() && a == block_address(p, k) && pages[p].contains(k) {
            lemma_block_in_page(p, k);
        }
    }
}

/// Appending a page whose blocks are all free leaves the live addresses as
/// they were.
pub proof fn lemma_live_push(pages: Seq<Set<int>>)
    requires
        valid(pages),
        pages.len() < WASM_MAX_PAGES,
    ensures
        valid(pages.push(Set::empty())),
        live(pages.push(Set::empty())) == live(pages),
{
    let after = pages.push(Set::<int>::empty());
    assert forall|a: int| is_live(after, a) == is_live(pages, a) by {}
}

/// Two different live blocks share no byte.
pub proof fn lemma_live_disjoint(pages: Seq<Set<int>>, a: int, b: int)
    requires
        valid(pages),
        is_live(pages, a),
        is_live(pages, b),
        a != b,
    ensures
        a + PAGE_HEAP_BLOCK_SIZE <= b || b + PAGE_HEAP_BLOCK_SIZE <= a,
{
    lemma_blocks_disjoint(
        page_of(a),
        block_index(offset_in_page(a)),
        page_of(b),
        block_index(offset_in_page(b)),
    );
}

/// A live block lies within a page of the heap, behind that page's header, at
/// a whole number of blocks from the end of the header.
pub proof fn lemma_live_in_page(pages: Seq<Set<int>>, a: int)
    requires
        valid(pages),
        is_live(pages, a),
    ensures
        0 <= page_of(a) < pages.len(),
        page_of(a) * WASM_PAGE_SIZE + PAGE_HEAP_HEADER_SIZE <= a,
        a + PAGE_HEAP_BLOCK_SIZE <= (page_of(a) + 1) * WASM_PAGE_SIZE,
        (offset_in_page(a) - PAGE_HEAP_HEADER_SIZE) % (PAGE_HEAP_BLOCK_SIZE as int) == 0,
{
    lemma_block_in_page(page_of(a), block_index(offset_in_page(a)));
}

} // verus!
