//! The header at the start of a page: a bitmap with one bit per block slot and
//! a scan cursor.
//!
//! A set bit marks an allocated block. Slot `k` is bit `k % 64` of word
//! `k / 64`, counted from the most significant end. The slots past
//! [`PAGE_HEAP_MAX_BLOCKS`] have no block behind them and stay clear for ever.

use crate::bits::{
    bit_is_set, lemma_all_set_is_full, lemma_clear_bit, lemma_full_word,
    lemma_leading_ones, lemma_set_bit, lemma_zero_word, FREE_MASK, FULL_WORD,
};
use crate::layout::{
    block_index, block_offset, offset_of_block, PAGE_HEAP_BLOCK_COUNT, PAGE_HEAP_BLOCK_SIZE,
    PAGE_HEAP_FREE_LIST_COUNT, PAGE_HEAP_HEADER_SIZE, PAGE_HEAP_MAX_BLOCKS, WASM_PAGE_SIZE,
};
use vstd::math::min;
use vstd::prelude::*;

verus! {

/// Whether `k` is the lowest block at or after `from` that is not in
/// `allocated`. The last line follows from the one before it; it names the
/// two ends of the range for the solver.
pub open spec fn is_first_free_from(allocated: Set<int>, from: int, k: int) -> bool {
    &&& from <= k < PAGE_HEAP_MAX_BLOCKS
    &&& !allocated.contains(k)
    &&& forall|j: int| from <= j < k ==> allocated.contains(j)
    &&& from < k ==> allocated.contains(from) && allocated.contains(k - 1)
}

/// Whether every block at or after `from` is in `allocated`. The last line
/// follows from the one before it; it names the two ends of the range for the
/// solver.
pub open spec fn is_full_from(allocated: Set<int>, from: int) -> bool {
    &&& forall|j: int| from <= j < PAGE_HEAP_MAX_BLOCKS ==> allocated.contains(j)
    &&& from < PAGE_HEAP_MAX_BLOCKS ==> allocated.contains(from) && allocated.contains(
        PAGE_HEAP_MAX_BLOCKS - 1,
    )
}

/// Whether `k` is the lowest block of a page that is not in `allocated`.
pub open spec fn is_first_free(allocated: Set<int>, k: int) -> bool {
    is_first_free_from(allocated, 0, k)
}

/// Whether every block of a page is in `allocated`.
pub open spec fn is_full(allocated: Set<int>) -> bool {
    is_full_from(allocated, 0)
}

/// The blocks with an index below `n`.
pub open spec fn first_blocks(n: int) -> Set<int> {
    Set::new(|k: int| 0 <= k < n)
}

/// A set of allocated blocks has at most one lowest free block, and none if
/// the page is full.
pub proof fn lemma_first_free_unique(allocated: Set<int>, k: int, j: int)
    requires
        is_first_free(allocated, k),
    ensures
        !is_full(allocated),
        is_first_free(allocated, j) ==> j == k,
{
}

/// A page filled from fresh hands out its blocks in the order of their
/// indices: with the first `n` blocks allocated the lowest free block is block
/// `n`, until the page is full.
pub proof fn lemma_fill_in_order(n: int)
    requires
        0 <= n <= PAGE_HEAP_MAX_BLOCKS,
    ensures
        first_blocks(0) == Set::<int>::empty(),
        n < PAGE_HEAP_MAX_BLOCKS ==> is_first_free(first_blocks(n), n),
        n < PAGE_HEAP_MAX_BLOCKS ==> first_blocks(n).insert(n) == first_blocks(n + 1),
        n == PAGE_HEAP_MAX_BLOCKS ==> is_full(first_blocks(n)),
{
}

/// Once block `k` is freed, the lowest free block is `k` or a block before it,
/// never one behind it; in a page that was full it is `k` itself.
pub proof fn lemma_freed_block_is_reused(allocated: Set<int>, k: int, next: int)
    requires
        0 <= k < PAGE_HEAP_MAX_BLOCKS,
        is_first_free(allocated.remove(k), next),
    ensures
        !is_full(allocated.remove(k)),
        next <= k,
        is_full(allocated) ==> next == k,
{
    assert(!allocated.remove(k).contains(k));
}

/// The header of one page.
pub struct PageHeap {
    /// One bit per block slot; a set bit marks an allocated block.
    free: [u64; PAGE_HEAP_FREE_LIST_COUNT],
    /// The scan cursor: every word before it is full.
    head: usize,
}

impl View for PageHeap {
    type V = Set<int>;

    /// The indices of the allocated blocks.
    closed spec fn view(&self) -> Set<int> {
        Set::new(|k: int| self.slot(k))
    }
}

impl PageHeap {
    /// Whether the bit of slot `k` is set.
    closed spec fn slot(&self, k: int) -> bool {
        0 <= k < PAGE_HEAP_BLOCK_COUNT && bit_is_set(self.free@[k / 64], k % 64)
    }

    /// The scan cursor, a word index.
    pub closed spec fn cursor(&self) -> int {
        self.head as int
    }

    /// The invariant of a header: the cursor is a word index, every word before
    /// it is full, and no slot without a block is marked.
    pub closed spec fn wf(&self) -> bool {
        &&& self.head < PAGE_HEAP_FREE_LIST_COUNT
        &&& forall|w: int| 0 <= w < self.head ==> #[trigger] self.free@[w] == FULL_WORD
        &&& forall|k: int| PAGE_HEAP_MAX_BLOCKS <= k < PAGE_HEAP_BLOCK_COUNT ==> !self.slot(k)
    }

    /// Whatever the header holds, only slots of the bitmap are in its model.
    pub proof fn lemma_view_in_bitmap(&self)
        ensures
            forall|k: int| self@.contains(k) ==> 0 <= k < PAGE_HEAP_BLOCK_COUNT,
    {
    }

    /// What the invariant says of the model: only blocks of the page are
    /// allocated, and every block in a word before the cursor is.
    pub proof fn lemma_wf(&self)
        requires
            self.wf(),
        ensures
            forall|k: int| self@.contains(k) ==> 0 <= k < PAGE_HEAP_MAX_BLOCKS,
            0 <= self.cursor() < PAGE_HEAP_FREE_LIST_COUNT,
            forall|k: int| 0 <= k < self.cursor() * 64 ==> self@.contains(k),
    {
        assert forall|k: int| 0 <= k < self.cursor() * 64 implies self@.contains(k) by {
            lemma_full_word(k % 64);
        }
    }

    /// The header of a fresh page: no block allocated, the cursor at the first
    /// word.
    pub fn new() -> (page: PageHeap)
        ensures
            page.wf(),
            page@ == Set::<int>::empty(),
            page.cursor() == 0,
    {
        let page = PageHeap { free: [0u64; PAGE_HEAP_FREE_LIST_COUNT], head: 0 };
        proof {
            assert forall|k: int| !page.slot(k) by {
                if 0 <= k < PAGE_HEAP_BLOCK_COUNT {
                    lemma_zero_word(k % 64);
                }
            }
        }
        page
    }

    /// The scan cursor.
    pub fn head(&self) -> (head: usize)
        ensures
            head == self.cursor(),
    {
        self.head
    }

    /// Whether block `index` is allocated.
    pub fn is_allocated(&self, index: usize) -> (allocated: bool)
        ensures
            allocated == self@.contains(index as int),
    {
        if index >= PAGE_HEAP_BLOCK_COUNT {
            return false;
        }
        let bitfield: u64 = self.free[index / 64];
        let bit: usize = index % 64;
        bitfield & (FREE_MASK >> (bit as u64)) != 0
    }

    /// Scans the bitmap words from `start_hint` on for the first word with a
    /// clear bit, and returns that word's index with the position of its
    /// leftmost clear bit. A clear bit past the last block of the page is no
    /// candidate.
    pub fn find_free(&self, start_hint: usize) -> (found: Option<(usize, usize)>)
        ensures
            match found {
                Some((word_index, bit_position)) => {
                    &&& start_hint <= word_index < PAGE_HEAP_FREE_LIST_COUNT
                    &&& bit_position < 64
                    &&& is_first_free_from(self@, start_hint * 64, word_index * 64 + bit_position)
                },
                None => is_full_from(self@, start_hint * 64),
            },
    {
        let mut index: usize = start_hint;
        while index < PAGE_HEAP_FREE_LIST_COUNT
            invariant
                start_hint <= index,
                forall|j: int|
                    start_hint * 64 <= j < index * 64 && j < PAGE_HEAP_MAX_BLOCKS
                        ==> self@.contains(j),
            decreases PAGE_HEAP_FREE_LIST_COUNT - index,
        {
            let bitfield: u64 = self.free[index];
            proof {
                lemma_leading_ones(bitfield);
            }
            if bitfield != FULL_WORD {
                let ones: usize = bitfield.leading_ones() as usize;
                let offset: usize = offset_of_block(index * 64 + ones);
                if offset <= WASM_PAGE_SIZE - PAGE_HEAP_BLOCK_SIZE {
                    return Some((index, ones));
                }
            }
            index += 1;
        }
        None
    }

    /// Sets the bit at `bit_position` of word `word_index` and moves the cursor
    /// to that word.
    pub fn mark_allocated(&mut self, word_index: usize, bit_position: usize)
        requires
            old(self).wf(),
            word_index < PAGE_HEAP_FREE_LIST_COUNT,
            bit_position < 64,
            word_index * 64 + bit_position < PAGE_HEAP_MAX_BLOCKS,
            forall|j: int| 0 <= j < word_index * 64 ==> old(self)@.contains(j),
        ensures
            final(self).wf(),
            final(self)@ == old(self)@.insert(word_index * 64 + bit_position),
            final(self).cursor() == word_index,
    {
        let bitfield: u64 = self.free[word_index];
        self.head = word_index;
        self.free[word_index] = bitfield | (FREE_MASK >> (bit_position as u64));
        proof {
            let k = word_index * 64 + bit_position;
            assert forall|j: int| self.slot(j) == (j == k || old(self).slot(j)) by {
                if 0 <= j < PAGE_HEAP_BLOCK_COUNT {
                    if j / 64 == word_index as int {
                        lemma_set_bit(bitfield, bit_position as int, j % 64);
                    }
                }
            }
            assert forall|w: int| 0 <= w < self.head implies #[trigger] self.free@[w]
                == FULL_WORD by {
                assert forall|pos: int| 0 <= pos < 64 implies bit_is_set(self.free@[w], pos) by {
                    let j = w * 64 + pos;
                    assert(old(self)@.contains(j));
                }
                lemma_all_set_is_full(self.free@[w]);
            }
        }
    }

    /// Clears the bit of block `block_index` and moves the cursor back to that
    /// bit's word if it was past it.
    pub fn mark_free(&mut self, block_index: usize)
        requires
            old(self).wf(),
            block_index < PAGE_HEAP_BLOCK_COUNT,
        ensures
            final(self).wf(),
            final(self)@ == old(self)@.remove(block_index as int),
            final(self).cursor() == min(old(self).cursor(), block_index as int / 64),
    {
        let word_index: usize = block_index / 64;
        let bit: usize = block_index % 64;
        let bitfield: u64 = self.free[word_index];
        if word_index < self.head {
            self.head = word_index;
        }
        self.free[word_index] = bitfield & !(FREE_MASK >> (bit as u64));
        proof {
            assert forall|j: int| self.slot(j) == (j != block_index && old(self).slot(j)) by {
                if 0 <= j < PAGE_HEAP_BLOCK_COUNT {
                    if j / 64 == word_index as int {
                        lemma_clear_bit(bitfield, bit as int, j % 64);
                    }
                }
            }
        }
    }

    /// Allocates the lowest free block of the page and returns its byte offset
    /// within the page, or `None` if the page is full.
    pub fn allocate(&mut self) -> (offset: Option<usize>)
        requires
            old(self).wf(),
        ensures
            final(self).wf(),
            match offset {
                Some(offset) => {
                    let k = block_index(offset as int);
                    &&& offset == block_offset(k)
                    &&& offset <= WASM_PAGE_SIZE - PAGE_HEAP_BLOCK_SIZE
                    &&& is_first_free(old(self)@, k)
                    &&& final(self)@ == old(self)@.insert(k)
                    &&& final(self).cursor() == k / 64
                },
                None => is_full(old(self)@) && *final(self) == *old(self),
            },
    {
        proof {
            self.lemma_wf();
        }
        match self.find_free(self.head) {
            Some((word_index, bit_position)) => {
                self.mark_allocated(word_index, bit_position);
                Some(offset_of_block(word_index * 64 + bit_position))
            },
            None => None,
        }
    }

    /// Frees the block that holds the byte at `offset` within the page.
    pub fn dealloc(&mut self, offset: usize)
        requires
            old(self).wf(),
            PAGE_HEAP_HEADER_SIZE <= offset < WASM_PAGE_SIZE,
        ensures
            final(self).wf(),
            final(self)@ == old(self)@.remove(block_index(offset as int)),
            final(self).cursor() == min(old(self).cursor(), block_index(offset as int) / 64),
    {
        let index: usize = (offset - PAGE_HEAP_HEADER_SIZE) / PAGE_HEAP_BLOCK_SIZE;
        self.mark_free(index);
    }
}

} // verus!
