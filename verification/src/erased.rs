//! Type-erased component values.
//!
//! A stored component value is erased to a runtime type tag plus an encoded
//! payload of plain machine words. The tag is checked again at the read
//! boundary (the checked downcast), so a value of the wrong type is rejected
//! rather than misread.

use vstd::prelude::*;

verus! {

/// Mathematical model of one type-erased value: the tag that names its
/// concrete component type, and the encoded payload.
#[verifier::ext_equal]
pub ghost struct ErasedModel {
    pub tag: u64,
    pub data: Seq<u64>,
}

/// One type-erased component value.
pub struct Erased {
    /// The tag of the component type the payload was encoded from.
    pub tag: u64,
    /// The encoded payload.
    pub data: Vec<u64>,
}

impl View for Erased {
    type V = ErasedModel;

    open spec fn view(&self) -> ErasedModel {
        ErasedModel { tag: self.tag, data: self.data@ }
    }
}

/// The models of a sequence of erased values.
pub open spec fn views_of(s: Seq<Erased>) -> Seq<ErasedModel> {
    s.map_values(|e: Erased| e@)
}

} // verus!
