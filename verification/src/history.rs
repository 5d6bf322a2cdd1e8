//! What holds of a heap after any sequence of legal calls.
//!
//! A history is the sequence of the models that a heap goes through, from the
//! empty address space on, where each model follows the one before it by one
//! legal call: an allocation that fits; an allocation for which the heap has
//! grown by one page, made when every page was full; or the freeing of a live
//! block. Each successful `Heap::allocate` and each `Heap::dealloc` of a live
//! block is such a step.

use crate::layout::{
    offset_in_page, page_of, PAGE_HEAP_BLOCK_SIZE, PAGE_HEAP_HEADER_SIZE, WASM_PAGE_SIZE,
};
use crate::model::{
    all_full, fits, frees, grows, is_live, lemma_fits, lemma_frees, lemma_grows,
    lemma_live_disjoint, lemma_live_in_page, live, valid,
};
use vstd::prelude::*;

verus! {

/// Whether one legal call on `address` leads from `before` to `after`.
pub open spec fn steps(before: Seq<Set<int>>, after: Seq<Set<int>>, address: int) -> bool {
    ||| fits(before, after, address)
    ||| all_full(before) && grows(before, after, address)
    ||| is_live(before, address) && frees(before, after, address)
}

/// Whether one legal call leads from `before` to `after`.
pub open spec fn follows(before: Seq<Set<int>>, after: Seq<Set<int>>) -> bool {
    exists|address: int| #[trigger] steps(before, after, address)
}

/// Whether `states` is a history: it starts from the empty address space, and
/// each state follows the one before it by one legal call.
pub open spec fn is_history(states: Seq<Seq<Set<int>>>) -> bool {
    &&& states.len() > 0
    &&& states[0].len() == 0
    &&& forall|i: int| 0 < i < states.len() ==> follows(states[i - 1], #[trigger] states[i])
}

/// The empty address space alone is a history.
pub proof fn lemma_history_begins()
    ensures
        is_history(seq![Seq::<Set<int>>::empty()]),
{
}

/// A history goes on with each legal call.
pub proof fn lemma_history_goes_on(states: Seq<Seq<Set<int>>>, after: Seq<Set<int>>)
    requires
        is_history(states),
        follows(states[states.len() - 1], after),
    ensures
        is_history(states.push(after)),
{
    let longer = states.push(after);
    assert forall|i: int| 0 < i < longer.len() implies follows(
        longer[i - 1],
        #[trigger] longer[i],
    ) by {}
}

/// A legal call keeps a valid model valid.
pub proof fn lemma_steps_valid(before: Seq<Set<int>>, after: Seq<Set<int>>, address: int)
    requires
        valid(before),
        steps(before, after, address),
    ensures
        valid(after),
{
    if fits(before, after, address) {
        lemma_fits(before, after, address);
    } else if all_full(before) && grows(before, after, address) {
        lemma_grows(before, after, address);
    } else {
        lemma_frees(before, after, address);
    }
}

/// Every state of a history is valid.
pub proof fn lemma_history_valid(states: Seq<Seq<Set<int>>>, i: int)
    requires
        is_history(states),
        0 <= i < states.len(),
    ensures
        valid(states[i]),
    decreases i,
{
    if i > 0 {
        lemma_history_valid(states, i - 1);
        let address = choose|address: int| #[trigger] steps(states[i - 1], states[i], address);
        lemma_steps_valid(states[i - 1], states[i], address);
    }
}

/// After any sequence of legal calls, each live block lies within a page of
/// the heap, behind that page's header and at a whole number of blocks from
/// it, and two different live blocks share no byte.
pub proof fn lemma_history_live_blocks(states: Seq<Seq<Set<int>>>, i: int, a: int, b: int)
    requires
        is_history(states),
        0 <= i < states.len(),
        is_live(states[i], a),
        is_live(states[i], b),
    ensures
        0 <= page_of(a) < states[i].len(),
        page_of(a) * WASM_PAGE_SIZE + PAGE_HEAP_HEADER_SIZE <= a,
        a + PAGE_HEAP_BLOCK_SIZE <= (page_of(a) + 1) * WASM_PAGE_SIZE,
        (offset_in_page(a) - PAGE_HEAP_HEADER_SIZE) % (PAGE_HEAP_BLOCK_SIZE as int) == 0,
        a != b ==> a + PAGE_HEAP_BLOCK_SIZE <= b || b + PAGE_HEAP_BLOCK_SIZE <= a,
{
    lemma_history_valid(states, i);
    lemma_live_in_page(states[i], a);
    if a != b {
        lemma_live_disjoint(states[i], a, b);
    }
}

/// Along a history the heap grows by one page at a time, and only by a call
/// that found every page full; the block that this call hands out lies in the
/// new page. No page is ever taken away.
pub proof fn lemma_history_growth(states: Seq<Seq<Set<int>>>, i: int, address: int)
    requires
        is_history(states),
        0 < i < states.len(),
        steps(states[i - 1], states[i], address),
    ensures
        states[i].len() == states[i - 1].len() || states[i].len() == states[i - 1].len() + 1,
        states[i].len() == states[i - 1].len() + 1 <==> all_full(states[i - 1]) && grows(
            states[i - 1],
            states[i],
            address,
        ),
        states[i].len() == states[i - 1].len() + 1 ==> page_of(address) == states[i - 1].len(),
        all_full(states[i - 1]) && !is_live(states[i - 1], address) ==> states[i].len()
            == states[i - 1].len() + 1,
{
    let before = states[i - 1];
    let after = states[i];
    lemma_history_valid(states, i - 1);
    if fits(before, after, address) {
        lemma_fits(before, after, address);
    }
    if all_full(before) && grows(before, after, address) {
        lemma_grows(before, after, address);
    }
    if is_live(before, address) && frees(before, after, address) {
        lemma_frees(before, after, address);
    }
}

/// Along a history every allocation hands out an address that was not live,
/// and every call changes the live addresses by that one address alone.
pub proof fn lemma_history_live_addresses(states: Seq<Seq<Set<int>>>, i: int, address: int)
    requires
        is_history(states),
        0 < i < states.len(),
        steps(states[i - 1], states[i], address),
    ensures
        is_live(states[i - 1], address) ==> live(states[i]) == live(states[i - 1]).remove(
            address,
        ),
        !is_live(states[i - 1], address) ==> live(states[i]) == live(states[i - 1]).insert(
            address,
        ),
{
    let before = states[i - 1];
    let after = states[i];
    lemma_history_valid(states, i - 1);
    if fits(before, after, address) {
        lemma_fits(before, after, address);
    } else if all_full(before) && grows(before, after, address) {
        lemma_grows(before, after, address);
    } else {
        lemma_frees(before, after, address);
    }
}

} // verus!
