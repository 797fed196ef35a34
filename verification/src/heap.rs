//! A collection that gives its elements back in the order of their numbers.
use std::collections::VecDeque;
use vstd::multiset::Multiset;
use vstd::prelude::*;

verus! {

/// An element with a number by which a [`Heap`] orders it.
pub trait Numbered {
    /// The number of the element.
    spec fn number(&self) -> u64;

    /// Reads the number.
    fn get_number(&self) -> (number: u64)
        ensures
            number == self.number(),
    ;
}

/// A priority queue: [`Heap::pop`] returns an element with the least number.
///
/// The elements are kept sorted. Numbers are mostly handed in in increasing order, so a new
/// element finds its place close to the end.
pub struct Heap<E> {
    items: VecDeque<E>,
}

impl<E> View for Heap<E> {
    type V = Multiset<E>;

    closed spec fn view(&self) -> Multiset<E> {
        self.items@.to_multiset()
    }
}

impl<E: Numbered> Heap<E> {
    /// The elements are sorted by their numbers.
    pub closed spec fn wf(&self) -> bool {
        forall|i: int, j: int|
            0 <= i <= j < self.items@.len() ==> (#[trigger] self.items@[i]).number() <= (
            #[trigger] self.items@[j]).number()
    }

    pub fn new() -> (heap: Heap<E>)
        ensures
            heap.wf(),
            heap@ == Multiset::<E>::empty(),
    {
        broadcast use vstd::seq_lib::group_to_multiset_ensures;

        let heap = Heap { items: VecDeque::new() };
        assert(heap@ =~= Multiset::<E>::empty());
        heap
    }

    /// Adds an element.
    pub fn push(&mut self, element: E)
        requires
            old(self).wf(),
        ensures
            final(self).wf(),
            final(self)@ == old(self)@.insert(element),
    {
        broadcast use vstd::seq_lib::group_to_multiset_ensures;

        let number = element.get_number();
        let ghost before = self.items@;
        let mut i: usize = self.items.len();
        while i > 0 && self.items[i - 1].get_number() > number
            invariant
                i <= self.items@.len(),
                self.items@ == before,
                forall|j: int|
                    i <= j < before.len() ==> number < (#[trigger] before[j]).number(),
            decreases i,
        {
            i = i - 1;
        }
        proof {
            vstd::seq_lib::to_multiset_insert(before, i as int, element);
        }
        self.items.insert(i, element);
    }

    /// Takes an element with the least number out.
    pub fn pop(&mut self) -> (result: Option<E>)
        requires
            old(self).wf(),
        ensures
            final(self).wf(),
            match result {
                Some(element) => {
                    &&& old(self)@.contains(element)
                    &&& forall|e: E|
                        #[trigger] old(self)@.contains(e) ==> element.number() <= e.number()
                    &&& final(self)@ == old(self)@.remove(element)
                },
                None => old(self)@.len() == 0 && final(self)@ == old(self)@,
            },
    {
        broadcast use vstd::seq_lib::group_to_multiset_ensures;

        let ghost before = self.items@;
        let result = self.items.pop_front();
        proof {
            if before.len() > 0 {
                assert(self.items@ =~= before.remove(0));
                assert(before.contains(before[0]));
                assert forall|e: E| #[trigger] old(self)@.contains(e) implies before[0].number()
                    <= e.number() by {
                    let i = choose|i: int| 0 <= i < before.len() && before[i] == e;
                }
            }
        }
        result
    }
}

} // verus!
