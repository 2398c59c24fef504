//! The component capability and the typed-recovery model.

use vstd::prelude::*;

use crate::erased::ErasedModel;

verus! {

/// A value type that can be stored in a `World`.
///
/// Each implementing type chooses a runtime type tag and an encoding of its
/// values into plain machine words, and proves that decoding an encoded value
/// yields that value back. The store distinguishes component types by the tag
/// alone, so every implementing type of one program must choose a tag of its
/// own: two types sharing a tag would share one identity and one column, and
/// recovery from that column then fails safely (`get_entities` reports the
/// column as unrecoverable) rather than misclassify a value.
pub trait Component: Sized {
    /// The tag that names this component type at runtime.
    spec fn spec_tag() -> u64;

    /// The encoded payload of one value.
    spec fn spec_data(self) -> Seq<u64>;

    /// The value, if any, that a payload decodes to.
    spec fn spec_of_data(data: Seq<u64>) -> Option<Self>;

    /// Returns the type tag.
    fn tag() -> (t: u64)
        ensures
            t == Self::spec_tag(),
    ;

    /// Encodes one value into its payload.
    fn encode(&self) -> (r: Vec<u64>)
        ensures
            r@ == self.spec_data(),
    ;

    /// Decodes a payload; `None` when it does not stand for any value.
    fn decode(data: &Vec<u64>) -> (r: Option<Self>)
        ensures
            r == Self::spec_of_data(data@),
    ;

    /// Round trip: decoding an encoded value yields the value back.
    proof fn lemma_round_trip(self)
        ensures
            Self::spec_of_data(self.spec_data()) == Some(self),
    ;
}

/// The erased form of one component value.
pub open spec fn erased_model_of<E: Component>(e: E) -> ErasedModel {
    ErasedModel { tag: E::spec_tag(), data: e.spec_data() }
}

/// The checked downcast of one erased value: the component value it stands
/// for, or `None` when its tag names another type or its payload decodes to
/// nothing.
pub open spec fn recover_one<E: Component>(em: ErasedModel) -> Option<E> {
    if em.tag == E::spec_tag() {
        E::spec_of_data(em.data)
    } else {
        None
    }
}

/// The checked downcast of a whole column: the component values its erased
/// elements stand for, in order, or `None` as soon as one element fails.
pub open spec fn recover_seq<E: Component>(col: Seq<ErasedModel>) -> Option<Seq<E>>
    decreases col.len(),
{
    if col.len() == 0 {
        Some(Seq::empty())
    } else {
        match recover_seq::<E>(col.drop_last()) {
            Some(vs) => (match recover_one::<E>(col.last()) {
                Some(v) => Some(vs.push(v)),
                None => None,
            }),
            None => None,
        }
    }
}

/// Recovery of a column fails as soon as any one element fails.
pub proof fn lemma_recover_fail<E: Component>(col: Seq<ErasedModel>, i: int)
    requires
        0 <= i < col.len(),
        recover_one::<E>(col[i]) is None,
    ensures
        recover_seq::<E>(col) is None,
    decreases col.len(),
{
    if i < col.len() - 1 {
        assert(col.drop_last()[i] == col[i]);
        lemma_recover_fail::<E>(col.drop_last(), i);
    }
}

/// Recovery distributes over appending one erased value.
pub proof fn lemma_recover_push<E: Component>(col: Seq<ErasedModel>, em: ErasedModel)
    ensures
        recover_seq::<E>(col.push(em)) == (match recover_seq::<E>(col) {
            Some(vs) => (match recover_one::<E>(em) {
                Some(v) => Some(vs.push(v)),
                None => None::<Seq<E>>,
            }),
            None => None::<Seq<E>>,
        }),
{
    assert(col.push(em).drop_last() =~= col);
    assert(col.push(em).last() == em);
}

} // verus!
