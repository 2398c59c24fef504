//! A column: the append-only, insertion-ordered store of all erased values of
//! one component type.

use vstd::prelude::*;

use crate::erased::{views_of, Erased, ErasedModel};

verus! {

/// Contains all stored values of one component type, type-erased, in
/// insertion order. The column itself does not check that its elements share
/// one concrete type; the typed `World` operations are its only writer and
/// keep it homogeneous.
pub struct Column {
    column: Vec<Erased>,
}

impl View for Column {
    type V = Seq<ErasedModel>;

    closed spec fn view(&self) -> Seq<ErasedModel> {
        views_of(self.column@)
    }
}

impl Column {
    /// Creates an empty column.
    pub fn new() -> (c: Column)
        ensures
            c@ == Seq::<ErasedModel>::empty(),
    {
        let c = Column { column: Vec::new() };
        proof {
            assert(c@ =~= Seq::<ErasedModel>::empty());
        }
        c
    }

    /// Takes ownership of one erased value and appends it.
    pub fn push(&mut self, e: Erased)
        ensures
            final(self)@ == old(self)@.push(e@),
    {
        let ghost em = e@;
        self.column.push(e);
        proof {
            assert(self@ =~= old(self)@.push(em));
        }
    }

    /// The element at position `row`, or `None` when `row` is out of range.
    pub fn get_row(&self, row: usize) -> (r: Option<&Erased>)
        ensures
            match r {
                Some(e) => row < self@.len() && e@ == self@[row as int],
                None => row >= self@.len(),
            },
    {
        if row < self.column.len() {
            Some(&self.column[row])
        } else {
            None
        }
    }

    /// A read-only view over every stored value, in insertion order.
    pub fn get(&self) -> (r: &Vec<Erased>)
        ensures
            views_of(r@) == self@,
    {
        &self.column
    }
}

} // verus!
