//! Sum types: the targets of generation.

use crate::views::lemma_deep_view_index;
use vstd::prelude::*;

verus! {

/// One variant of a sum type: its tag and the types of the values it wraps, in
/// order. A variant that can be delegated to wraps exactly one.
#[derive(Debug, PartialEq, Eq)]
pub struct VariantDescriptor {
    pub tag: String,
    pub wrapped: Vec<String>,
}

/// The mathematical value of a [`VariantDescriptor`].
pub struct VariantView {
    pub tag: Seq<char>,
    pub wrapped: Seq<Seq<char>>,
}

impl View for VariantDescriptor {
    type V = VariantView;

    open spec fn view(&self) -> VariantView {
        VariantView { tag: self.tag@, wrapped: self.wrapped.deep_view() }
    }
}

impl DeepView for VariantDescriptor {
    type V = VariantView;

    open spec fn deep_view(&self) -> VariantView {
        self@
    }
}

/// A sum type: its name and its variants in the order of their declaration.
#[derive(Debug, PartialEq, Eq)]
pub struct SumTypeDescriptor {
    pub name: String,
    pub variants: Vec<VariantDescriptor>,
}

/// The mathematical value of a [`SumTypeDescriptor`].
pub struct SumTypeView {
    pub name: Seq<char>,
    pub variants: Seq<VariantView>,
}

impl View for SumTypeDescriptor {
    type V = SumTypeView;

    open spec fn view(&self) -> SumTypeView {
        SumTypeView { name: self.name@, variants: self.variants.deep_view() }
    }
}

impl DeepView for SumTypeDescriptor {
    type V = SumTypeView;

    open spec fn deep_view(&self) -> SumTypeView {
        self@
    }
}

/// One call of the generator: the sum type to implement for, and the names of
/// the interfaces to implement, in the order in which the blocks are wanted.
#[derive(Debug, PartialEq, Eq)]
pub struct DelegationRequest {
    pub target: SumTypeDescriptor,
    pub interfaces: Vec<String>,
}

/// The mathematical value of a [`DelegationRequest`].
pub struct DelegationRequestView {
    pub target: SumTypeView,
    pub interfaces: Seq<Seq<char>>,
}

impl View for DelegationRequest {
    type V = DelegationRequestView;

    open spec fn view(&self) -> DelegationRequestView {
        DelegationRequestView { target: self.target@, interfaces: self.interfaces.deep_view() }
    }
}

/// Whether a variant wraps exactly one value.
pub open spec fn wraps_one(variant: VariantView) -> bool {
    variant.wrapped.len() == 1
}

/// Whether every variant wraps exactly one value.
pub open spec fn every_variant_wraps_one(variants: Seq<VariantView>) -> bool {
    forall|i: int| 0 <= i < variants.len() ==> wraps_one(#[trigger] variants[i])
}

/// Whether no two variants share a tag.
pub open spec fn distinct_tags(variants: Seq<VariantView>) -> bool {
    forall|i: int, j: int|
        0 <= i < j < variants.len() ==> (#[trigger] variants[i]).tag != (#[trigger] variants[j]).tag
}

/// The tag of the first variant that does not wrap exactly one value.
pub open spec fn malformed_variant(variants: Seq<VariantView>) -> Option<Seq<char>>
    decreases variants.len(),
{
    if variants.len() == 0 {
        None
    } else if !wraps_one(variants[0]) {
        Some(variants[0].tag)
    } else {
        malformed_variant(variants.skip(1))
    }
}

/// There is a malformed variant exactly when not every variant wraps one value,
/// and the one that is named is the first of them.
pub proof fn lemma_malformed_variant(variants: Seq<VariantView>)
    ensures
        malformed_variant(variants) is None <==> every_variant_wraps_one(variants),
        malformed_variant(variants) is Some ==> exists|k: int|
            {
                &&& 0 <= k < variants.len()
                &&& !wraps_one(#[trigger] variants[k])
                &&& malformed_variant(variants) == Some(variants[k].tag)
                &&& every_variant_wraps_one(variants.take(k))
            },
    decreases variants.len(),
{
    if variants.len() > 0 {
        let rest = variants.skip(1);
        lemma_malformed_variant(rest);
        if wraps_one(variants[0]) {
            if every_variant_wraps_one(rest) {
                assert forall|i: int| 0 <= i < variants.len() implies wraps_one(
                    #[trigger] variants[i],
                ) by {
                    if i > 0 {
                        assert(variants[i] == rest[i - 1]);
                    }
                }
            } else {
                let j = choose|j: int| 0 <= j < rest.len() && !wraps_one(#[trigger] rest[j]);
                assert(variants[j + 1] == rest[j]);
            }
            if malformed_variant(rest) is Some {
                let k = choose|k: int|
                    {
                        &&& 0 <= k < rest.len()
                        &&& !wraps_one(#[trigger] rest[k])
                        &&& malformed_variant(rest) == Some(rest[k].tag)
                        &&& every_variant_wraps_one(rest.take(k))
                    };
                assert(variants[k + 1] == rest[k]);
                assert forall|i: int| 0 <= i < k + 1 implies wraps_one(
                    #[trigger] variants.take(k + 1)[i],
                ) by {
                    if i > 0 {
                        assert(variants.take(k + 1)[i] == rest.take(k)[i - 1]);
                    }
                }
            }
        } else {
            assert(variants.take(0) =~= Seq::empty());
        }
    }
}

impl SumTypeDescriptor {
    /// The place of the first variant that does not wrap exactly one value.
    pub fn first_malformed(&self) -> (place: Option<usize>)
        ensures
            match place {
                Some(k) => {
                    &&& k < self.variants.len()
                    &&& !wraps_one(self@.variants[k as int])
                    &&& every_variant_wraps_one(self@.variants.take(k as int))
                    &&& malformed_variant(self@.variants) == Some(self@.variants[k as int].tag)
                },
                None => {
                    &&& every_variant_wraps_one(self@.variants)
                    &&& malformed_variant(self@.variants) is None
                },
            },
    {
        let ghost all = self@.variants;
        let mut i: usize = 0;
        assert(all.skip(0) =~= all);
        while i < self.variants.len()
            invariant
                i <= self.variants.len(),
                all == self@.variants,
                all.len() == self.variants.len(),
                every_variant_wraps_one(all.take(i as int)),
                malformed_variant(all) == malformed_variant(all.skip(i as int)),
            decreases self.variants.len() - i,
        {
            proof {
                lemma_deep_view_index(self.variants, i as int);
                assert(all.skip(i as int).skip(1) =~= all.skip(i + 1));
            }
            if self.variants[i].wrapped.len() != 1 {
                return Some(i);
            }
            i += 1;
            assert forall|j: int| 0 <= j < i implies wraps_one(
                #[trigger] all.take(i as int)[j],
            ) by {
                if j < i - 1 {
                    assert(all.take(i as int)[j] == all.take(i - 1)[j]);
                }
            }
        }
        assert(all.take(i as int) =~= all);
        None
    }
}

} // verus!
