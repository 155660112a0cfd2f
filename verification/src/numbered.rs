//! Tables whose entries are numbered in the order they come.

use std::collections::HashMap;
use vstd::prelude::*;

verus! {

/// A table of values by their numbers. A number is given out once.
#[verifier::reject_recursive_types(T)]
pub struct Numbered<T> {
    entries: HashMap<u64, T>,
    next: u64,
}

impl<T> View for Numbered<T> {
    type V = Map<u64, T>;

    closed spec fn view(&self) -> Map<u64, T> {
        self.entries@
    }
}

impl<T> Numbered<T> {
    /// Numbers are given out in order.
    pub closed spec fn wf(&self) -> bool {
        forall|number: u64| #[trigger] self.entries@.contains_key(number) ==> number < self.next
    }

    /// How many numbers are left to give out.
    pub closed spec fn room(&self) -> nat {
        (u64::MAX - self.next) as nat
    }

    /// An empty table.
    pub fn new() -> (table: Numbered<T>)
        ensures
            table.wf(),
            table.room() == u64::MAX,
            table@ == Map::<u64, T>::empty(),
    {
        broadcast use vstd::std_specs::hash::group_hash_axioms;

        Numbered { entries: HashMap::new(), next: 0 }
    }

    /// Whether there is a number left to give out.
    pub fn has_room(&self) -> (room: bool)
        ensures
            room == (self.room() > 0),
    {
        self.next < u64::MAX
    }

    /// Adds a value under a new number.
    pub fn add(&mut self, value: T) -> (number: u64)
        requires
            old(self).wf(),
            old(self).room() > 0,
        ensures
            final(self).wf(),
            final(self).room() + 1 == old(self).room(),
            !old(self)@.contains_key(number),
            final(self)@ == old(self)@.insert(number, value),
    {
        broadcast use vstd::std_specs::hash::group_hash_axioms;

        let number: u64 = self.next;
        self.entries.insert(number, value);
        self.next = number + 1;
        number
    }

    /// Whether there is a value under `number`.
    pub fn contains(&self, number: u64) -> (contained: bool)
        ensures
            contained == self@.contains_key(number),
    {
        broadcast use vstd::std_specs::hash::group_hash_axioms;

        self.entries.contains_key(&number)
    }

    /// The value under `number`.
    pub fn get(&self, number: u64) -> (value: Option<&T>)
        ensures
            value == (if self@.contains_key(number) {
                Some(&self@[number])
            } else {
                None
            }),
    {
        broadcast use vstd::std_specs::hash::group_hash_axioms;

        self.entries.get(&number)
    }

    /// Takes the value under `number` out of the table.
    pub fn remove(&mut self, number: u64) -> (value: Option<T>)
        requires
            old(self).wf(),
        ensures
            final(self).wf(),
            final(self).room() == old(self).room(),
            final(self).gave_out(number) == old(self).gave_out(number),
            value == (if old(self)@.contains_key(number) {
                Some(old(self)@[number])
            } else {
                None
            }),
            final(self)@ == old(self)@.remove(number),
            old(self)@.contains_key(number) ==> final(self).gave_out(number),
    {
        broadcast use vstd::std_specs::hash::group_hash_axioms;

        let value: Option<T> = self.entries.remove(&number);
        assert(self@ =~= old(self)@.remove(number));
        value
    }

    /// Whether `number` was given out.
    pub closed spec fn gave_out(&self, number: u64) -> bool {
        number < self.next
    }

    /// Puts a value under a number that was given out.
    pub fn put(&mut self, number: u64, value: T)
        requires
            old(self).wf(),
            old(self).gave_out(number),
        ensures
            final(self).wf(),
            final(self).room() == old(self).room(),
            final(self)@ == old(self)@.insert(number, value),
    {
        broadcast use vstd::std_specs::hash::group_hash_axioms;

        self.entries.insert(number, value);
    }
}

} // verus!
