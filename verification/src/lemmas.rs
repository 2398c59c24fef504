//! Laws of the store: how insertion and typed retrieval relate, stated over
//! the mathematical models that the `World` contracts use.

use vstd::prelude::*;

use crate::component::{lemma_recover_push, recover_seq, Component};
use crate::erased::ErasedModel;
use crate::registry::{
    first_index, is_first_index, lemma_first_index, lemma_first_index_unique,
    lemma_identity_isolated, register, register_id,
};
use crate::table::{col_at, has_col, upsert};
use crate::world::{insert_model, query_model, recovered};

verus! {

/// What a query for `E` recovers, reading an absent column as empty: the
/// baseline that insertions of `E` append to.
pub open spec fn recovered_or_empty<E: Component>(
    reg: Seq<u64>,
    cols: Seq<Option<Seq<ErasedModel>>>,
) -> Option<Seq<E>> {
    match query_model(reg, cols, E::spec_tag()) {
        Some(col) => recover_seq::<E>(col),
        None => Some(Seq::empty()),
    }
}

/// Inserting one value of type `E` appends exactly that value to what a query
/// for `E` recovers, keeps the world state well-formed, and leaves `E`'s
/// column present.
pub proof fn lemma_insert_appends<E: Component>(
    reg: Seq<u64>,
    cols: Seq<Option<Seq<ErasedModel>>>,
    v: E,
)
    requires
        cols.len() <= reg.len(),
    ensures
        ({
            let (reg2, cols2) = insert_model(reg, cols, E::spec_tag(), v.spec_data());
            &&& cols2.len() <= reg2.len()
            &&& query_model(reg2, cols2, E::spec_tag()) is Some
            &&& recovered::<E>(reg2, cols2) == recovered_or_empty::<E>(reg2, cols2)
            &&& recovered::<E>(reg2, cols2) == (match recovered_or_empty::<E>(reg, cols) {
                Some(bs) => Some(bs.push(v)),
                None => None::<Seq<E>>,
            })
        }),
{
    let tag = E::spec_tag();
    let em = ErasedModel { tag, data: v.spec_data() };
    let reg2 = register(reg, tag);
    let id = register_id(reg, tag);
    let cols2 = upsert(cols, id, em);
    assert(reg2.contains(tag)) by {
        if !reg.contains(tag) {
            assert(reg2[reg.len() as int] == tag);
        }
    }
    lemma_first_index(reg2, tag);
    assert(is_first_index(reg2, tag, id));
    assert(0 <= id < reg2.len());
    assert(cols2.len() == if id + 1 > cols.len() {
        id + 1
    } else {
        cols.len() as int
    });
    assert(has_col(cols2, id));
    assert(col_at(cols2, id) == col_at(cols, id).push(em));
    assert(query_model(reg2, cols2, tag) == Some(col_at(cols, id).push(em)));
    lemma_recover_push::<E>(col_at(cols, id), em);
    v.lemma_round_trip();
    assert(recover_seq::<E>(col_at(cols, id).push(em)) == (match recover_seq::<E>(
        col_at(cols, id),
    ) {
        Some(bs) => Some(bs.push(v)),
        None => None::<Seq<E>>,
    }));
    assert(recovered_or_empty::<E>(reg, cols) == recover_seq::<E>(col_at(cols, id))) by {
        if reg.contains(tag) {
            lemma_first_index(reg, tag);
            assert(is_first_index(reg, tag, first_index(reg, tag)));
            assert(is_first_index(reg2, tag, first_index(reg, tag)));
            lemma_first_index_unique(reg2, tag, first_index(reg, tag));
            assert(id == first_index(reg, tag));
            if !has_col(cols, id) {
                assert(col_at(cols, id) =~= Seq::<ErasedModel>::empty());
            }
        } else {
            lemma_first_index(reg, tag);
            assert(id == first_index(reg2, tag));
            assert(is_first_index(reg2, tag, reg.len() as int));
            lemma_first_index_unique(reg2, tag, reg.len() as int);
            assert(id == reg.len());
            assert(!has_col(cols, id));
            assert(col_at(cols, id) =~= Seq::<ErasedModel>::empty());
        }
    }
}

/// The world state after values `vs[0], vs[1], ...` of type `E` insert in
/// turn.
pub open spec fn insert_all_model<E: Component>(
    reg: Seq<u64>,
    cols: Seq<Option<Seq<ErasedModel>>>,
    vs: Seq<E>,
) -> (Seq<u64>, Seq<Option<Seq<ErasedModel>>>)
    decreases vs.len(),
{
    if vs.len() == 0 {
        (reg, cols)
    } else {
        let (r1, c1) = insert_all_model::<E>(reg, cols, vs.drop_last());
        insert_model(r1, c1, E::spec_tag(), vs.last().spec_data())
    }
}

/// Inserting values `vs[0], vs[1], ...` of type `E` appends exactly those
/// values, in insertion order, to what a query for `E` recovers.
pub proof fn lemma_insert_all_appends<E: Component>(
    reg: Seq<u64>,
    cols: Seq<Option<Seq<ErasedModel>>>,
    vs: Seq<E>,
)
    requires
        cols.len() <= reg.len(),
    ensures
        ({
            let (reg2, cols2) = insert_all_model::<E>(reg, cols, vs);
            &&& cols2.len() <= reg2.len()
            &&& vs.len() > 0 ==> query_model(reg2, cols2, E::spec_tag()) is Some
            &&& recovered_or_empty::<E>(reg2, cols2) == (match recovered_or_empty::<E>(reg, cols) {
                Some(bs) => Some(bs + vs),
                None => None::<Seq<E>>,
            })
        }),
    decreases vs.len(),
{
    let (reg2, cols2) = insert_all_model::<E>(reg, cols, vs);
    if vs.len() == 0 {
        match recovered_or_empty::<E>(reg, cols) {
            Some(bs) => {
                assert(bs + vs =~= bs);
            },
            None => {},
        }
    } else {
        let (r1, c1) = insert_all_model::<E>(reg, cols, vs.drop_last());
        lemma_insert_all_appends::<E>(reg, cols, vs.drop_last());
        lemma_insert_appends::<E>(r1, c1, vs.last());
        match recovered_or_empty::<E>(reg, cols) {
            Some(bs) => {
                assert((bs + vs.drop_last()).push(vs.last()) =~= bs + vs);
            },
            None => {},
        }
    }
}

/// Insertion-order preservation: starting from a world state in which a query
/// for `E` finds nothing, inserting `vs[0], vs[1], ...` of type `E` and then
/// querying `E` recovers exactly `vs`, in insertion order.
pub proof fn lemma_insertion_order<E: Component>(
    reg: Seq<u64>,
    cols: Seq<Option<Seq<ErasedModel>>>,
    vs: Seq<E>,
)
    requires
        cols.len() <= reg.len(),
        query_model(reg, cols, E::spec_tag()) is None,
        vs.len() > 0,
    ensures
        ({
            let (reg2, cols2) = insert_all_model::<E>(reg, cols, vs);
            recovered::<E>(reg2, cols2) == Some(vs)
        }),
{
    let (reg2, cols2) = insert_all_model::<E>(reg, cols, vs);
    lemma_insert_all_appends::<E>(reg, cols, vs);
    let (r1, c1) = insert_all_model::<E>(reg, cols, vs.drop_last());
    lemma_insert_all_appends::<E>(reg, cols, vs.drop_last());
    lemma_insert_appends::<E>(r1, c1, vs.last());
    assert(recovered::<E>(reg2, cols2) == recovered_or_empty::<E>(reg2, cols2));
    assert(Seq::<E>::empty() + vs =~= vs);
}

/// Type separation: inserting a value of one component type changes nothing
/// that a query for a different component type sees.
pub proof fn lemma_type_separation<A: Component, B: Component>(
    reg: Seq<u64>,
    cols: Seq<Option<Seq<ErasedModel>>>,
    b: B,
)
    requires
        A::spec_tag() != B::spec_tag(),
        cols.len() <= reg.len(),
    ensures
        ({
            let (reg2, cols2) = insert_model(reg, cols, B::spec_tag(), b.spec_data());
            recovered::<A>(reg2, cols2) == recovered::<A>(reg, cols)
        }),
{
    let ta = A::spec_tag();
    let tb = B::spec_tag();
    let em = ErasedModel { tag: tb, data: b.spec_data() };
    let reg2 = register(reg, tb);
    let idb = register_id(reg, tb);
    let cols2 = upsert(cols, idb, em);
    assert(reg2.contains(tb)) by {
        if !reg.contains(tb) {
            assert(reg2[reg.len() as int] == tb);
        }
    }
    lemma_first_index(reg2, tb);
    assert(is_first_index(reg2, tb, idb));
    if reg.contains(ta) {
        lemma_first_index(reg, ta);
        let ia = first_index(reg, ta);
        assert(is_first_index(reg2, ta, ia));
        lemma_first_index_unique(reg2, ta, ia);
        assert(reg2.contains(ta)) by {
            assert(reg2[ia] == ta);
        }
        lemma_identity_isolated(reg2, ta, tb, ia, idb);
        assert(has_col(cols2, ia) == has_col(cols, ia) && col_at(cols2, ia) == col_at(
            cols,
            ia,
        )) by {
            if idb < cols.len() {
                assert(cols2 == cols.update(idb, Some(col_at(cols, idb).push(em))));
            } else if 0 <= ia < cols2.len() && ia != idb {
                assert(cols2[ia] == if ia < cols.len() {
                    cols[ia]
                } else {
                    None
                });
            }
        }
        assert(query_model(reg2, cols2, ta) == query_model(reg, cols, ta));
    } else {
        assert(!reg2.contains(ta)) by {
            if reg2.contains(ta) {
                let w = choose|w: int| 0 <= w < reg2.len() && reg2[w] == ta;
                if w < reg.len() {
                    assert(reg[w] == ta);
                }
            }
        }
    }
}

} // verus!
