//! A fixed-size block allocator over a flat address space that grows by whole
//! pages.
//!
//! Every page starts with a header: a bitmap with one bit per 64-byte block and
//! a scan cursor. Blocks are handed out first fit: the lowest free block of the
//! lowest page that has one. The allocator keeps the books and decides; it
//! leaves the growing of the address space to its caller.
//!
//! - [`layout`]: the sizes, and the arithmetic between block indices, byte
//!   offsets and addresses.
//! - [`bits`]: single bitmap words.
//! - [`page`]: [`page::PageHeap`], the header of one page.
//! - [`model`]: the mathematical model of a heap, and what allocating and
//!   freeing are over it.
//! - [`heap`]: [`heap::Heap`], the allocator over all pages.
//! - [`history`]: what holds after any sequence of legal calls.

pub mod bits;
pub mod heap;
pub mod history;
pub mod layout;
pub mod model;
pub mod page;
