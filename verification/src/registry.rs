//! The type registry's mathematical model.
//!
//! A registry is the sequence of type tags ever registered, in
//! first-registration order; a component type's identity is the position of
//! its tag in that sequence. Registering an already-known tag returns the
//! existing position and never appends, so identities are dense and stable.

use vstd::prelude::*;

verus! {

/// An identity for one component type: the position of the type's tag in the
/// registry of the `World` that issued it. Identities are dense, assigned in
/// first-registration order starting at 0, and only meaningful within the
/// `World` that issued them.
#[derive(Hash, PartialEq, Eq, Copy, Clone, Structural)]
pub struct ComponentId(pub(crate) usize);

impl View for ComponentId {
    type V = int;

    closed spec fn view(&self) -> int {
        self.0 as int
    }
}

impl ComponentId {
    pub(crate) fn from_index(i: usize) -> (id: ComponentId)
        ensures
            id@ == i,
    {
        ComponentId(i)
    }

    pub(crate) fn index(&self) -> (i: usize)
        ensures
            i == self@,
    {
        self.0
    }
}

/// `i` is the position of the first occurrence of `tag` in `reg`.
pub open spec fn is_first_index(reg: Seq<u64>, tag: u64, i: int) -> bool {
    &&& 0 <= i < reg.len()
    &&& reg[i] == tag
    &&& forall|j: int| 0 <= j < i ==> reg[j] != tag
}

/// The position of the first occurrence of `tag` in `reg`, or `reg.len()`
/// when `tag` is absent.
pub open spec fn first_index(reg: Seq<u64>, tag: u64) -> int
    decreases reg.len(),
{
    if reg.len() == 0 {
        0
    } else if reg[0] == tag {
        0
    } else {
        1 + first_index(reg.subrange(1, reg.len() as int), tag)
    }
}

/// The registry after a type with tag `tag` registers: unchanged when the tag
/// is already known, extended by one slot otherwise.
pub open spec fn register(reg: Seq<u64>, tag: u64) -> Seq<u64> {
    if reg.contains(tag) {
        reg
    } else {
        reg.push(tag)
    }
}

/// The identity that registering `tag` on `reg` yields.
pub open spec fn register_id(reg: Seq<u64>, tag: u64) -> int {
    first_index(register(reg, tag), tag)
}

/// No tag occurs twice.
pub open spec fn distinct(reg: Seq<u64>) -> bool {
    forall|i: int, j: int| 0 <= i < j < reg.len() ==> reg[i] != reg[j]
}

/// `first_index` finds the first occurrence of a present tag, and runs off the
/// end for an absent one.
pub proof fn lemma_first_index(reg: Seq<u64>, tag: u64)
    ensures
        reg.contains(tag) ==> is_first_index(reg, tag, first_index(reg, tag)),
        !reg.contains(tag) ==> first_index(reg, tag) == reg.len(),
    decreases reg.len(),
{
    if reg.len() == 0 {
    } else if reg[0] == tag {
        assert(reg.contains(tag));
    } else {
        let rest = reg.subrange(1, reg.len() as int);
        lemma_first_index(rest, tag);
        if reg.contains(tag) {
            let w = choose|w: int| 0 <= w < reg.len() && reg[w] == tag;
            assert(rest[w - 1] == tag);
            assert(rest.contains(tag));
            let f = first_index(rest, tag);
            assert(reg[1 + f] == rest[f]);
            assert(forall|j: int| 0 <= j < 1 + f ==> reg[j] != tag) by {
                assert(forall|j: int| 1 <= j < 1 + f ==> reg[j] == rest[j - 1]);
            }
        } else {
            assert(!rest.contains(tag)) by {
                if rest.contains(tag) {
                    let w = choose|w: int| 0 <= w < rest.len() && rest[w] == tag;
                    assert(reg[w + 1] == tag);
                }
            }
        }
    }
}

/// A position that satisfies `is_first_index` is `first_index`.
pub proof fn lemma_first_index_unique(reg: Seq<u64>, tag: u64, i: int)
    requires
        is_first_index(reg, tag, i),
    ensures
        first_index(reg, tag) == i,
{
    assert(reg.contains(tag)) by {
        assert(reg[i] == tag);
    }
    lemma_first_index(reg, tag);
}

/// Identity stability: registering a tag a second time changes nothing and
/// yields the same identity, the position of the tag's first occurrence.
pub proof fn lemma_identity_stable(reg: Seq<u64>, tag: u64)
    ensures
        register(register(reg, tag), tag) == register(reg, tag),
        register_id(register(reg, tag), tag) == register_id(reg, tag),
        is_first_index(register(reg, tag), tag, register_id(reg, tag)),
{
    let reg1 = register(reg, tag);
    assert(reg1.contains(tag)) by {
        if reg.contains(tag) {
        } else {
            assert(reg1[reg.len() as int] == tag);
        }
    }
    lemma_first_index(reg1, tag);
}

/// Identity isolation: two distinct tags never share an identity.
pub proof fn lemma_identity_isolated(reg: Seq<u64>, t1: u64, t2: u64, i1: int, i2: int)
    requires
        t1 != t2,
        is_first_index(reg, t1, i1),
        is_first_index(reg, t2, i2),
    ensures
        i1 != i2,
{
}

/// Registering keeps the registry free of duplicates.
pub proof fn lemma_register_distinct(reg: Seq<u64>, tag: u64)
    requires
        distinct(reg),
    ensures
        distinct(register(reg, tag)),
{
    if !reg.contains(tag) {
        let reg1 = reg.push(tag);
        assert forall|i: int, j: int| 0 <= i < j < reg1.len() implies reg1[i] != reg1[j] by {
            if j == reg.len() {
                assert(reg1[i] == reg[i]);
                if reg[i] == tag {
                    assert(reg.contains(tag));
                }
            }
        }
    }
}

/// The registry a sequence of tags builds when each registers in turn,
/// starting from an empty registry.
pub open spec fn register_all(tags: Seq<u64>) -> Seq<u64>
    decreases tags.len(),
{
    if tags.len() == 0 {
        Seq::empty()
    } else {
        register(register_all(tags.drop_last()), tags.last())
    }
}

/// Identity isolation, dense form: registering N pairwise-distinct tags in
/// turn builds exactly that sequence of tags, and the k-th tag receives
/// identity k, so N distinct types get identities 0 .. N-1 with no gap and no
/// duplicate.
pub proof fn lemma_identities_dense(tags: Seq<u64>)
    requires
        distinct(tags),
    ensures
        register_all(tags) == tags,
        forall|k: int|
            0 <= k < tags.len() ==> #[trigger] register_id(tags.subrange(0, k), tags[k]) == k,
    decreases tags.len(),
{
    if tags.len() == 0 {
        assert(register_all(tags) =~= tags);
    } else {
        let prefix = tags.drop_last();
        assert(distinct(prefix)) by {
            assert(forall|i: int| 0 <= i < prefix.len() ==> prefix[i] == tags[i]);
        }
        lemma_identities_dense(prefix);
        assert(!prefix.contains(tags.last())) by {
            if prefix.contains(tags.last()) {
                let w = choose|w: int| 0 <= w < prefix.len() && prefix[w] == tags.last();
                assert(tags[w] == tags[tags.len() - 1]);
            }
        }
        assert(register_all(tags) =~= tags);
        assert forall|k: int| 0 <= k < tags.len() implies #[trigger] register_id(
            tags.subrange(0, k),
            tags[k],
        ) == k by {
            let sub = tags.subrange(0, k);
            assert(!sub.contains(tags[k])) by {
                if sub.contains(tags[k]) {
                    let w = choose|w: int| 0 <= w < sub.len() && sub[w] == tags[k];
                    assert(tags[w] == tags[k]);
                }
            }
            let reg1 = register(sub, tags[k]);
            assert(reg1 == sub.push(tags[k]));
            assert(is_first_index(reg1, tags[k], k)) by {
                assert(forall|j: int| 0 <= j < k ==> reg1[j] == tags[j]);
            }
            lemma_first_index_unique(reg1, tags[k], k);
        }
    }
}

} // verus!
