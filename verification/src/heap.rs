//! The allocator: a sequence of pages, filled first fit from the lowest page.
//!
//! The heap never grows the address space itself: that is the host's to do.
//! [`Heap::allocate`] takes the host's growth primitive as an argument and
//! calls it, for exactly one page, when every page is full. What it does before
//! and after that call are [`Heap::allocate_fit`] and
//! [`Heap::allocate_grown`].

use crate::history::steps;
use crate::layout::{
    block_index, offset_in_page, page_of, GROW_FAILED, PAGE_HEAP_BLOCK_SIZE,
    PAGE_HEAP_HEADER_SIZE, PAGE_HEAP_MAX_BLOCKS, WASM_MAX_PAGES, WASM_PAGE_SIZE,
};
use crate::model::{
    all_full, fits, frees, grows, is_live, lemma_fits, lemma_frees, lemma_grows, live, valid,
};
use crate::page::{is_full, PageHeap};
use vstd::math::min;
use vstd::prelude::*;

verus! {

/// The allocator over all pages of the address space.
pub struct Heap {
    /// The headers of the pages, in the order of their addresses.
    pages: Vec<PageHeap>,
}

impl View for Heap {
    type V = Seq<Set<int>>;

    /// For each page, the indices of its allocated blocks.
    closed spec fn view(&self) -> Seq<Set<int>> {
        Seq::new(self.pages@.len(), |p: int| self.pages@[p]@)
    }
}

impl Heap {
    /// For each page, its scan cursor.
    pub closed spec fn cursors(&self) -> Seq<int> {
        Seq::new(self.pages@.len(), |p: int| self.pages@[p].cursor())
    }

    /// Whether `after` is this heap with its first fit allocated, at `address`:
    /// the block is marked, and the cursor of its page stands at its word.
    pub open spec fn fitted(&self, after: &Heap, address: int) -> bool {
        let p = page_of(address);
        let k = block_index(offset_in_page(address));
        &&& fits(self@, after@, address)
        &&& after.cursors() == self.cursors().update(p, k / 64)
    }

    /// Whether `after` is this heap with one page appended and the first block
    /// of that page allocated, at `address`.
    pub open spec fn grown(&self, after: &Heap, address: int) -> bool {
        &&& grows(self@, after@, address)
        &&& after.cursors() == self.cursors().push(0)
    }

    /// Whether `after` has the pages and cursors of this heap.
    pub open spec fn unchanged(&self, after: &Heap) -> bool {
        &&& after@ == self@
        &&& after.cursors() == self.cursors()
    }

    /// Whether `answer`, the host's answer to a request for one page, says that
    /// the host has appended a page to this heap: it is the page count that the
    /// heap had, and the new page still lies within the address space.
    pub open spec fn accepts(&self, answer: usize) -> bool {
        answer == self@.len() && answer < WASM_MAX_PAGES
    }

    /// What becomes of this heap and of the allocation once the host has
    /// answered a request for one page: where the host has appended the page,
    /// the allocation is the first block of that page; where it has not, the
    /// heap is unchanged and the allocation fails.
    pub open spec fn answered(&self, after: &Heap, answer: usize, address: Option<usize>) -> bool {
        match address {
            Some(address) => self.accepts(answer) && self.grown(after, address as int),
            None => !self.accepts(answer) && self.unchanged(after),
        }
    }

    /// The invariant of the heap: the pages fit in the address space and each
    /// header is well formed.
    pub closed spec fn wf(&self) -> bool {
        &&& self.pages@.len() <= WASM_MAX_PAGES
        &&& forall|p: int| 0 <= p < self.pages@.len() ==> (#[trigger] self.pages@[p]).wf()
    }

    /// The model of a well-formed heap is valid, and there is a cursor for each
    /// page.
    pub proof fn lemma_wf(&self)
        requires
            self.wf(),
        ensures
            valid(self@),
            self.cursors().len() == self@.len(),
    {
        assert forall|p: int, k: int|
            0 <= p < self@.len() && (#[trigger] self@[p].contains(k)) implies 0 <= k
            < PAGE_HEAP_MAX_BLOCKS by {
            self.pages@[p].lemma_wf();
        }
    }

    /// The heap over an empty address space.
    pub fn new() -> (heap: Heap)
        ensures
            heap.wf(),
            heap@ == Seq::<Set<int>>::empty(),
            heap.cursors() == Seq::<int>::empty(),
    {
        Heap { pages: Vec::new() }
    }

    /// The number of pages.
    pub fn page_count(&self) -> (count: usize)
        ensures
            count == self@.len(),
    {
        self.pages.len()
    }

    /// Whether `ptr` is the address of an allocated block.
    pub fn is_live(&self, ptr: usize) -> (live: bool)
        ensures
            live == is_live(self@, ptr as int),
    {
        let page: usize = ptr / WASM_PAGE_SIZE;
        let offset: usize = ptr % WASM_PAGE_SIZE;
        if page >= self.pages.len() {
            return false;
        }
        proof {
            self.pages@[page as int].lemma_view_in_bitmap();
        }
        if offset < PAGE_HEAP_HEADER_SIZE {
            return false;
        }
        let index: usize = (offset - PAGE_HEAP_HEADER_SIZE) / PAGE_HEAP_BLOCK_SIZE;
        if (offset - PAGE_HEAP_HEADER_SIZE) % PAGE_HEAP_BLOCK_SIZE != 0 {
            return false;
        }
        self.pages[page].is_allocated(index)
    }

    /// Allocates the first fit among the pages there are: the lowest free block
    /// of the lowest page that is not full, whatever the size asked for. The
    /// cursor of that page moves to the word of the block. Returns the block's
    /// address, or `None` if every page is full; the heap is then unchanged.
    pub fn allocate_fit(&mut self, size: usize) -> (address: Option<usize>)
        requires
            old(self).wf(),
            size <= PAGE_HEAP_BLOCK_SIZE,
        ensures
            final(self).wf(),
            address is None <==> all_full(old(self)@),
            match address {
                Some(address) => {
                    &&& old(self).fitted(final(self), address as int)
                    &&& PAGE_HEAP_HEADER_SIZE <= offset_in_page(address as int) <= WASM_PAGE_SIZE
                        - PAGE_HEAP_BLOCK_SIZE
                    &&& !is_live(old(self)@, address as int)
                    &&& live(final(self)@) == live(old(self)@).insert(address as int)
                },
                None => old(self).unchanged(final(self)),
            },
    {
        let mut i: usize = 0;
        while i < self.pages.len()
            invariant
                i <= self.pages.len(),
                self.wf(),
                self@ == old(self)@,
                self.cursors() == old(self).cursors(),
                forall|q: int| 0 <= q < i ==> is_full(#[trigger] old(self)@[q]),
            decreases self.pages.len() - i,
        {
            let page_offset: usize = i * WASM_PAGE_SIZE;
            let ghost before = self@;
            let ghost cursors = self.cursors();
            proof {
                self.lemma_wf();
            }
            if let Some(offset) = self.pages[i].allocate() {
                proof {
                    let k = block_index(offset as int);
                    assert(self@ =~= before.update(i as int, before[i as int].insert(k)));
                    assert(self.cursors() =~= cursors.update(i as int, k / 64));
                    lemma_fits(before, self@, page_offset + offset);
                }
                return Some(page_offset + offset);
            }
            i += 1;
        }
        None
    }

    /// Allocates a block of `size` bytes, at most one block's size, and returns
    /// its address: the first fit among the pages there are, or, if every page
    /// is full, the first block of the one page that `grow` is then asked for.
    /// `grow` takes a number of pages and answers with the page count before
    /// the growth, or with [`GROW_FAILED`]. Returns `None` if the host did not
    /// append the page: the heap is then unchanged and out of memory.
    pub fn allocate<G: FnOnce(usize) -> usize>(&mut self, size: usize, grow: G) -> (address:
        Option<usize>)
        requires
            old(self).wf(),
            size <= PAGE_HEAP_BLOCK_SIZE,
            call_requires(grow, (1usize,)),
        ensures
            final(self).wf(),
            !all_full(old(self)@) ==> address is Some && old(self).fitted(
                final(self),
                address.unwrap() as int,
            ),
            all_full(old(self)@) ==> exists|answer: usize| #[trigger]
                call_ensures(grow, (1usize,), answer) && old(self).answered(
                    final(self),
                    answer,
                    address,
                ),
            match address {
                Some(address) => {
                    &&& final(self)@.len() == old(self)@.len() + if all_full(old(self)@) {
                        1int
                    } else {
                        0int
                    }
                    &&& all_full(old(self)@) ==> page_of(address as int) == old(self)@.len()
                    &&& steps(old(self)@, final(self)@, address as int)
                    &&& PAGE_HEAP_HEADER_SIZE <= offset_in_page(address as int) <= WASM_PAGE_SIZE
                        - PAGE_HEAP_BLOCK_SIZE
                    &&& !is_live(old(self)@, address as int)
                    &&& live(final(self)@) == live(old(self)@).insert(address as int)
                },
                None => all_full(old(self)@) && old(self).unchanged(final(self)),
            },
    {
        match self.allocate_fit(size) {
            Some(address) => Some(address),
            None => {
                let answer: usize = grow(1);
                self.allocate_grown(answer, size)
            },
        }
    }

    /// Takes the host's answer to a request for one page. Where the answer is
    /// the page count of the heap, the host has appended a page: the heap
    /// records it with every block free and the cursor at the first word, and
    /// returns the address at which it begins. Any other answer,
    /// [`GROW_FAILED`] among them, leaves the heap as it was, and so does a
    /// page past the end of the address space.
    pub fn grow(&mut self, grown: usize) -> (base: Option<usize>)
        requires
            old(self).wf(),
        ensures
            final(self).wf(),
            base is Some <==> old(self).accepts(grown),
            match base {
                Some(base) => {
                    &&& base == grown * WASM_PAGE_SIZE
                    &&& final(self)@ == old(self)@.push(Set::empty())
                    &&& final(self).cursors() == old(self).cursors().push(0)
                },
                None => old(self).unchanged(final(self)),
            },
    {
        if grown != self.pages.len() || grown >= WASM_MAX_PAGES {
            return None;
        }
        self.pages.push(PageHeap::new());
        Some(grown * WASM_PAGE_SIZE)
    }

    /// Takes the host's answer to a request for one page and allocates in the
    /// new page alone. Returns the address of the new page's first block, or
    /// `None` if the host did not append the page: the heap is then unchanged
    /// and out of memory.
    pub fn allocate_grown(&mut self, grown: usize, size: usize) -> (address: Option<usize>)
        requires
            old(self).wf(),
            size <= PAGE_HEAP_BLOCK_SIZE,
        ensures
            final(self).wf(),
            old(self).answered(final(self), grown, address),
            grown == GROW_FAILED ==> address is None,
            match address {
                Some(address) => {
                    &&& page_of(address as int) == grown
                    &&& offset_in_page(address as int) == PAGE_HEAP_HEADER_SIZE
                    &&& !is_live(old(self)@, address as int)
                    &&& live(final(self)@) == live(old(self)@).insert(address as int)
                },
                None => true,
            },
    {
        match self.grow(grown) {
            Some(page_offset) => {
                let ghost grown_pages = self@;
                assert(self.pages@.len() == self@.len());
                let found = self.pages[grown].allocate();
                proof {
                    let empty = Set::<int>::empty();
                    assert(grown_pages[grown as int] == empty);
                    assert(self@ =~= grown_pages.update(grown as int, empty.insert(0)));
                    assert(self@ =~= old(self)@.push(set![0int]));
                    assert(self.cursors() =~= old(self).cursors().push(0));
                    old(self).lemma_wf();
                    lemma_grows(old(self)@, self@, page_offset + found.unwrap());
                }
                match found {
                    Some(offset) => Some(page_offset + offset),
                    None => None,
                }
            },
            None => None,
        }
    }

    /// Frees the block that holds the byte at `ptr` and takes the cursor of its
    /// page back to the word of that block if it was past it. The size is not
    /// looked at: every block has the same.
    pub fn dealloc(&mut self, ptr: usize, _size: usize)
        requires
            old(self).wf(),
            page_of(ptr as int) < old(self)@.len(),
            offset_in_page(ptr as int) >= PAGE_HEAP_HEADER_SIZE,
        ensures
            final(self).wf(),
            frees(old(self)@, final(self)@, ptr as int),
            ({
                let p = page_of(ptr as int);
                let word = block_index(offset_in_page(ptr as int)) / 64;
                final(self).cursors() == old(self).cursors().update(
                    p,
                    min(old(self).cursors()[p], word),
                )
            }),
            is_live(old(self)@, ptr as int) ==> steps(old(self)@, final(self)@, ptr as int),
            is_live(old(self)@, ptr as int) ==> live(final(self)@) == live(old(self)@).remove(
                ptr as int,
            ),
    {
        let page: usize = ptr / WASM_PAGE_SIZE;
        let page_offset: usize = page * WASM_PAGE_SIZE;
        let offset: usize = ptr - page_offset;
        self.pages[page].dealloc(offset);
        proof {
            let k = block_index(offset as int);
            assert(self@ =~= old(self)@.update(page as int, old(self)@[page as int].remove(k)));
            old(self).lemma_wf();
            lemma_frees(old(self)@, self@, ptr as int);
        }
    }
}

} // verus!
