//! The world: the public façade binding type-identity resolution to storage.

use vstd::prelude::*;

use crate::component::{erased_model_of, recover_seq, Component};
use crate::erased::{views_of, ErasedModel};
use crate::registry::{
    distinct, first_index, is_first_index, lemma_first_index_unique, register, register_id,
    ComponentId,
};
use crate::table::{col_at, has_col, upsert, Table};

verus! {

/// The erased column that a query for `tag` sees: `None` when `tag` was never
/// registered, or when it was registered but no value of it was ever inserted.
pub open spec fn query_model(
    reg: Seq<u64>,
    cols: Seq<Option<Seq<ErasedModel>>>,
    tag: u64,
) -> Option<Seq<ErasedModel>> {
    if reg.contains(tag) && has_col(cols, first_index(reg, tag)) {
        Some(col_at(cols, first_index(reg, tag)))
    } else {
        None
    }
}

/// The typed values that a query for `E` yields: the checked downcast of the
/// erased column a query for `E`'s tag sees.
pub open spec fn recovered<E: Component>(
    reg: Seq<u64>,
    cols: Seq<Option<Seq<ErasedModel>>>,
) -> Option<Seq<E>> {
    match query_model(reg, cols, E::spec_tag()) {
        Some(col) => recover_seq::<E>(col),
        None => None,
    }
}

/// The registry and column state after one value with tag `tag` and payload
/// `data` is inserted: the tag registers, then the erased value is appended to
/// the column for the resulting identity.
pub open spec fn insert_model(
    reg: Seq<u64>,
    cols: Seq<Option<Seq<ErasedModel>>>,
    tag: u64,
    data: Seq<u64>,
) -> (Seq<u64>, Seq<Option<Seq<ErasedModel>>>) {
    (register(reg, tag), upsert(cols, register_id(reg, tag), ErasedModel { tag, data }))
}

/// Owns the type registry and the table, and ties identity resolution to
/// storage: values are inserted by their concrete component type and later
/// retrieved in bulk by that type.
pub struct World {
    component_map: Vec<u64>,
    table: Table,
}

impl World {
    /// The registry: each registered tag, in first-registration order.
    pub closed spec fn registry(self) -> Seq<u64> {
        self.component_map@
    }

    /// The stored columns, indexed by identity.
    pub closed spec fn columns(self) -> Seq<Option<Seq<ErasedModel>>> {
        self.table@
    }

    /// Well-formed: no tag is registered twice, and the table holds no column
    /// slot beyond the identity space the registry has issued.
    pub open spec fn wf(self) -> bool {
        &&& distinct(self.registry())
        &&& self.columns().len() <= self.registry().len()
    }

    /// Creates an empty world.
    pub fn new() -> (w: World)
        ensures
            w.wf(),
            w.registry() == Seq::<u64>::empty(),
            w.columns() == Seq::<Option<Seq<ErasedModel>>>::empty(),
    {
        World { component_map: Vec::new(), table: Table::new() }
    }

    /// Returns the identity for `C`, allocating the next sequential identity
    /// when `C` registers for the first time: the identity is the position of
    /// `C`'s tag in the registry, and the registry grows only on first sight.
    pub fn init_component_id<C: Component>(&mut self) -> (id: ComponentId)
        ensures
            final(self).registry() == register(old(self).registry(), C::spec_tag()),
            final(self).columns() == old(self).columns(),
            is_first_index(final(self).registry(), C::spec_tag(), id@),
            id@ == register_id(old(self).registry(), C::spec_tag()),
            old(self).wf() ==> final(self).wf(),
    {
        let tag = C::tag();
        let n = self.component_map.len();
        let mut i: usize = 0;
        while i < n
            invariant
                self == old(self),
                n == self.component_map@.len(),
                i <= n,
                tag == C::spec_tag(),
                forall|j: int| 0 <= j < i ==> self.component_map@[j] != tag,
            decreases n - i,
        {
            if self.component_map[i] == tag {
                proof {
                    assert(is_first_index(self.registry(), tag, i as int));
                    assert(self.registry().contains(tag)) by {
                        assert(self.registry()[i as int] == tag);
                    }
                    lemma_first_index_unique(self.registry(), tag, i as int);
                }
                return ComponentId::from_index(i);
            }
            i += 1;
        }
        proof {
            assert(!old(self).registry().contains(tag)) by {
                if old(self).registry().contains(tag) {
                    let w = choose|w: int|
                        0 <= w < old(self).registry().len() && old(self).registry()[w] == tag;
                }
            }
        }
        self.component_map.push(tag);
        let id = ComponentId::from_index(n);
        proof {
            let reg1 = self.registry();
            assert(reg1 == old(self).registry().push(tag));
            assert(is_first_index(reg1, tag, n as int));
            lemma_first_index_unique(reg1, tag, n as int);
            if old(self).wf() {
                crate::registry::lemma_register_distinct(old(self).registry(), tag);
            }
        }
        id
    }

    /// Returns the identity for `C` when `C` has registered, and `None`
    /// otherwise; a read-only probe with no side effect.
    pub fn get_component_id<C: Component>(&self) -> (r: Option<ComponentId>)
        ensures
            match r {
                Some(id) => is_first_index(self.registry(), C::spec_tag(), id@),
                None => !self.registry().contains(C::spec_tag()),
            },
    {
        let tag = C::tag();
        let n = self.component_map.len();
        let mut i: usize = 0;
        while i < n
            invariant
                n == self.component_map@.len(),
                i <= n,
                tag == C::spec_tag(),
                forall|j: int| 0 <= j < i ==> self.component_map@[j] != tag,
            decreases n - i,
        {
            if self.component_map[i] == tag {
                return Some(ComponentId::from_index(i));
            }
            i += 1;
        }
        proof {
            assert(!self.registry().contains(tag)) by {
                if self.registry().contains(tag) {
                    let w = choose|w: int|
                        0 <= w < self.registry().len() && self.registry()[w] == tag;
                }
            }
        }
        None
    }

    /// Resolves (allocating on first sight) the identity for `E`, then appends
    /// the erased value to the column for that identity.
    pub fn insert_entity<E: Component>(&mut self, e: E)
        ensures
            (final(self).registry(), final(self).columns()) == insert_model(
                old(self).registry(),
                old(self).columns(),
                E::spec_tag(),
                e.spec_data(),
            ),
            old(self).wf() ==> final(self).wf(),
    {
        let ghost pre = *self;
        let component_id = self.init_component_id::<E>();
        self.table.insert_entity(component_id, e);
        proof {
            assert(erased_model_of::<E>(e) =~= (ErasedModel {
                tag: E::spec_tag(),
                data: e.spec_data(),
            }));
            if pre.wf() {
                assert(self.columns().len() <= self.registry().len()) by {
                    assert(component_id@ < self.registry().len());
                }
            }
        }
    }

    /// Retrieves every stored value of type `E`, in insertion order, through
    /// the checked downcast of `E`'s column. Yields `None` when no value of
    /// `E` was ever inserted — whether `E` never registered or registered
    /// without an insertion — and when any stored element of `E`'s column
    /// fails to downcast to `E`.
    pub fn get_entities<E: Component>(&self) -> (r: Option<Vec<E>>)
        ensures
            match r {
                Some(v) => recovered::<E>(self.registry(), self.columns()) == Some(v@),
                None => recovered::<E>(self.registry(), self.columns()) is None,
            },
    {
        let ghost reg = self.registry();
        let ghost cols = self.columns();
        let ghost tag_spec = E::spec_tag();
        let component_id = match self.get_component_id::<E>() {
            Some(id) => id,
            None => {
                return None;
            },
        };
        proof {
            lemma_first_index_unique(reg, tag_spec, component_id@);
            assert(reg.contains(tag_spec)) by {
                assert(reg[component_id@] == tag_spec);
            }
        }
        let column = match self.table.get_column(component_id) {
            Some(c) => c,
            None => {
                return None;
            },
        };
        let ghost target = col_at(cols, component_id@);
        let rows = column.get();
        let tag = E::tag();
        let mut out: Vec<E> = Vec::new();
        let n = rows.len();
        let mut i: usize = 0;
        proof {
            assert(views_of(rows@) == target);
        }
        while i < n
            invariant
                i <= n,
                n == rows@.len(),
                tag == E::spec_tag(),
                reg == self.registry(),
                cols == self.columns(),
                query_model(reg, cols, E::spec_tag()) == Some(target),
                views_of(rows@) == target,
                recover_seq::<E>(target.subrange(0, i as int)) == Some(out@),
            decreases n - i,
        {
            let ghost pre_out = out@;
            let e = &rows[i];
            proof {
                assert(target[i as int] == rows@[i as int]@);
            }
            if e.tag != tag {
                proof {
                    crate::component::lemma_recover_fail::<E>(target, i as int);
                }
                return None;
            }
            match E::decode(&e.data) {
                Some(v) => {
                    out.push(v);
                    proof {
                        let sub1 = target.subrange(0, i + 1 as int);
                        assert(sub1.drop_last() =~= target.subrange(0, i as int));
                        assert(sub1.last() == target[i as int]);
                        assert(recover_seq::<E>(sub1) == Some(pre_out.push(v)));
                    }
                },
                None => {
                    proof {
                        crate::component::lemma_recover_fail::<E>(target, i as int);
                    }
                    return None;
                },
            }
            i += 1;
        }
        proof {
            assert(target.subrange(0, n as int) =~= target);
        }
        Some(out)
    }
}

} // verus!
