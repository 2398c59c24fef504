//! Sample component types: the kind of consumer types an embedding program
//! defines and marks as eligible for storage.

use vstd::prelude::*;

use crate::component::Component;

verus! {

/// A sample component holding one machine word.
#[derive(Debug, PartialEq, Eq, Structural, Copy, Clone)]
pub struct MyComponent(pub usize);

impl Component for MyComponent {
    open spec fn spec_tag() -> u64 {
        1
    }

    open spec fn spec_data(self) -> Seq<u64> {
        seq![self.0 as u64]
    }

    open spec fn spec_of_data(data: Seq<u64>) -> Option<MyComponent> {
        if data.len() == 1 && data[0] <= usize::MAX as u64 {
            Some(MyComponent(data[0] as usize))
        } else {
            None
        }
    }

    fn tag() -> u64 {
        1
    }

    fn encode(&self) -> (r: Vec<u64>) {
        let mut r: Vec<u64> = Vec::new();
        r.push(self.0 as u64);
        proof {
            assert(r@ =~= self.spec_data());
        }
        r
    }

    fn decode(data: &Vec<u64>) -> (r: Option<MyComponent>) {
        if data.len() == 1 {
            let x: u64 = data[0];
            if x <= usize::MAX as u64 {
                Some(MyComponent(x as usize))
            } else {
                None
            }
        } else {
            None
        }
    }

    proof fn lemma_round_trip(self) {
    }
}

/// A second sample component, of a type of its own.
#[derive(Debug, PartialEq, Eq, Structural, Copy, Clone)]
pub struct OtherComponent(pub u64);

impl Component for OtherComponent {
    open spec fn spec_tag() -> u64 {
        2
    }

    open spec fn spec_data(self) -> Seq<u64> {
        seq![self.0]
    }

    open spec fn spec_of_data(data: Seq<u64>) -> Option<OtherComponent> {
        if data.len() == 1 {
            Some(OtherComponent(data[0]))
        } else {
            None
        }
    }

    fn tag() -> u64 {
        2
    }

    fn encode(&self) -> (r: Vec<u64>) {
        let mut r: Vec<u64> = Vec::new();
        r.push(self.0);
        proof {
            assert(r@ =~= self.spec_data());
        }
        r
    }

    fn decode(data: &Vec<u64>) -> (r: Option<OtherComponent>) {
        if data.len() == 1 {
            Some(OtherComponent(data[0]))
        } else {
            None
        }
    }

    proof fn lemma_round_trip(self) {
    }
}

} // verus!
