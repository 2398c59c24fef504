//! The table: the mapping from component identities to their columns.
//!
//! Identities are dense integers, so the mapping is realized as a vector
//! indexed by the identity; a slot holds `None` until a first value of that
//! identity arrives.

use vstd::prelude::*;

use crate::column::Column;
use crate::component::{erased_model_of, Component};
use crate::erased::{Erased, ErasedModel};
use crate::registry::ComponentId;

verus! {

/// The model of one table slot.
pub open spec fn slot_view(c: Option<Column>) -> Option<Seq<ErasedModel>> {
    match c {
        Some(col) => Some(col@),
        None => None,
    }
}

/// Whether a table with model `cols` holds a column for identity `id`.
pub open spec fn has_col(cols: Seq<Option<Seq<ErasedModel>>>, id: int) -> bool {
    0 <= id < cols.len() && cols[id] is Some
}

/// The stored sequence for identity `id`; empty when no column is there.
pub open spec fn col_at(cols: Seq<Option<Seq<ErasedModel>>>, id: int) -> Seq<ErasedModel> {
    if has_col(cols, id) {
        cols[id]->0
    } else {
        Seq::empty()
    }
}

/// The table after an erased value is appended to the column for `id`: the
/// column is created empty first when absent, and slots below `id` that do not
/// exist yet are created absent.
pub open spec fn upsert(
    cols: Seq<Option<Seq<ErasedModel>>>,
    id: int,
    em: ErasedModel,
) -> Seq<Option<Seq<ErasedModel>>>
    recommends
        id >= 0,
{
    let grown = if id < cols.len() {
        cols
    } else {
        Seq::new(
            (id + 1) as nat,
            |i: int|
                if i < cols.len() {
                    cols[i]
                } else {
                    None
                },
        )
    };
    grown.update(id, Some(col_at(cols, id).push(em)))
}

/// Contains one column per component identity that has ever received a value.
pub struct Table {
    map: Vec<Option<Column>>,
}

impl View for Table {
    type V = Seq<Option<Seq<ErasedModel>>>;

    closed spec fn view(&self) -> Seq<Option<Seq<ErasedModel>>> {
        self.map@.map_values(|c: Option<Column>| slot_view(c))
    }
}

impl Table {
    /// Creates an empty table.
    pub fn new() -> (t: Table)
        ensures
            t@ == Seq::<Option<Seq<ErasedModel>>>::empty(),
    {
        let t = Table { map: Vec::new() };
        proof {
            assert(t@ =~= Seq::<Option<Seq<ErasedModel>>>::empty());
        }
        t
    }

    /// Erases `e` and appends it to the column for `id`, creating that column
    /// first when no value of identity `id` was ever inserted.
    pub fn insert_entity<E: Component>(&mut self, id: ComponentId, e: E)
        ensures
            final(self)@ == upsert(old(self)@, id@, erased_model_of::<E>(e)),
    {
        let idx = id.index();
        let erased = Erased { tag: E::tag(), data: e.encode() };
        proof {
            assert(erased@ =~= erased_model_of::<E>(e));
        }
        while self.map.len() <= idx
            invariant
                old(self).map@.len() <= self.map@.len(),
                old(self).map@.len() > idx ==> self.map@ == old(self).map@,
                old(self).map@.len() <= idx ==> self.map@.len() <= idx + 1,
                forall|i: int|
                    0 <= i < old(self).map@.len() ==> self.map@[i] == old(self).map@[i],
                forall|i: int|
                    old(self).map@.len() <= i < self.map@.len() ==> self.map@[i] is None,
            decreases idx + 1 - self.map.len(),
        {
            self.map.push(None);
        }
        let slot = self.map.remove(idx);
        let mut col = match slot {
            Some(c) => c,
            None => Column::new(),
        };
        let ghost base = col@;
        proof {
            assert(base == col_at(old(self)@, id@)) by {
                if id@ < old(self)@.len() {
                    assert(old(self)@[id@] == slot_view(old(self).map@[id@]));
                }
            }
        }
        col.push(erased);
        self.map.insert(idx, Some(col));
        proof {
            let target = upsert(old(self)@, id@, erased_model_of::<E>(e));
            assert forall|i: int| 0 <= i < self@.len() implies self@[i] == target[i] by {
                assert(self@[i] == slot_view(self.map@[i]));
                if i < old(self)@.len() {
                    assert(old(self)@[i] == slot_view(old(self).map@[i]));
                }
            }
            assert(self@ =~= target);
        }
    }

    /// The column for `id`, or `None` when no value of that identity was ever
    /// inserted.
    pub fn get_column(&self, id: ComponentId) -> (r: Option<&Column>)
        ensures
            match r {
                Some(c) => has_col(self@, id@) && c@ == col_at(self@, id@),
                None => !has_col(self@, id@),
            },
    {
        let idx = id.index();
        if idx < self.map.len() {
            proof {
                assert(self@[id@] == slot_view(self.map@[id@]));
            }
            match &self.map[idx] {
                Some(c) => Some(c),
                None => None,
            }
        } else {
            None
        }
    }
}

} // verus!
