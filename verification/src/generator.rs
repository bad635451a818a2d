//! The delegation generator: from a sum type and the names of interfaces to
//! one implementation block per interface.

use crate::binder::{binder_for, fresh_binder};
use crate::error::{DelegationError, DelegationErrorView};
use crate::interface::{describe, described, InterfaceDescriptor, InterfaceDescriptorView};
use crate::registry::Registry;
use crate::signature::{param_names, MethodSignature, MethodSignatureView};
use crate::sum_type::{
    malformed_variant, DelegationRequest, DelegationRequestView, SumTypeDescriptor, SumTypeView,
};
use crate::views::{lemma_deep_view_index, lemma_deep_view_push, lemma_take_push};
use vstd::prelude::*;

verus! {

/// One arm of a dispatch: where the sum type holds `variant`, bind the value
/// that it wraps to `binder` and call `method` on it with `arguments`.
#[derive(Debug, PartialEq, Eq)]
pub struct Arm {
    pub variant: String,
    pub binder: String,
    pub method: String,
    pub arguments: Vec<String>,
}

/// The mathematical value of an [`Arm`].
pub struct ArmView {
    pub variant: Seq<char>,
    pub binder: Seq<char>,
    pub method: Seq<char>,
    pub arguments: Seq<Seq<char>>,
}

impl View for Arm {
    type V = ArmView;

    open spec fn view(&self) -> ArmView {
        ArmView {
            variant: self.variant@,
            binder: self.binder@,
            method: self.method@,
            arguments: self.arguments.deep_view(),
        }
    }
}

impl DeepView for Arm {
    type V = ArmView;

    open spec fn deep_view(&self) -> ArmView {
        self@
    }
}

/// A generated method: the signature it implements and its dispatch, one arm
/// per variant.
#[derive(Debug, PartialEq, Eq)]
pub struct ForwardingMethod {
    pub signature: MethodSignature,
    pub arms: Vec<Arm>,
}

/// The mathematical value of a [`ForwardingMethod`].
pub struct ForwardingMethodView {
    pub signature: MethodSignatureView,
    pub arms: Seq<ArmView>,
}

impl View for ForwardingMethod {
    type V = ForwardingMethodView;

    open spec fn view(&self) -> ForwardingMethodView {
        ForwardingMethodView { signature: self.signature@, arms: self.arms.deep_view() }
    }
}

impl DeepView for ForwardingMethod {
    type V = ForwardingMethodView;

    open spec fn deep_view(&self) -> ForwardingMethodView {
        self@
    }
}

/// A generated block: `target` implements `interface` by `methods`.
#[derive(Debug, PartialEq, Eq)]
pub struct ImplBlock {
    pub interface: String,
    pub target: String,
    pub methods: Vec<ForwardingMethod>,
}

/// The mathematical value of an [`ImplBlock`].
pub struct ImplBlockView {
    pub interface: Seq<char>,
    pub target: Seq<char>,
    pub methods: Seq<ForwardingMethodView>,
}

impl View for ImplBlock {
    type V = ImplBlockView;

    open spec fn view(&self) -> ImplBlockView {
        ImplBlockView {
            interface: self.interface@,
            target: self.target@,
            methods: self.methods.deep_view(),
        }
    }
}

impl DeepView for ImplBlock {
    type V = ImplBlockView;

    open spec fn deep_view(&self) -> ImplBlockView {
        self@
    }
}

/// The method that forwards `sig` for `target`: one arm per variant, in the
/// order of the variants. Every arm calls the method of the same name on the
/// wrapped value and hands it the parameters, by name and in order. The name
/// that the arm gives to the wrapped value is none of the parameters'.
pub open spec fn forwarding(target: SumTypeView, sig: MethodSignatureView) -> ForwardingMethodView {
    ForwardingMethodView {
        signature: sig,
        arms: Seq::new(
            target.variants.len(),
            |i: int|
                ArmView {
                    variant: target.variants[i].tag,
                    binder: binder_for(param_names(sig)),
                    method: sig.name,
                    arguments: param_names(sig),
                },
        ),
    }
}

/// The block by which `target` implements `interface`: one forwarding method
/// per signature, in the order of the signatures.
pub open spec fn implemented(
    target: SumTypeView,
    interface: InterfaceDescriptorView,
) -> ImplBlockView {
    ImplBlockView {
        interface: interface.name,
        target: target.name,
        methods: Seq::new(
            interface.signatures.len(),
            |i: int| forwarding(target, interface.signatures[i]),
        ),
    }
}

/// The blocks for the interfaces of the given names, in that order, or the
/// first failure met on the way: the names are taken one after the other, and
/// each is read back from the table before the next is looked at.
pub open spec fn blocks_for(
    table: Map<Seq<char>, Seq<Seq<char>>>,
    target: SumTypeView,
    names: Seq<Seq<char>>,
) -> Result<Seq<ImplBlockView>, DelegationErrorView>
    decreases names.len(),
{
    if names.len() == 0 {
        Ok(Seq::empty())
    } else {
        match blocks_for(table, target, names.drop_last()) {
            Err(error) => Err(error),
            Ok(blocks) => match described(table, names.last()) {
                Err(error) => Err(error),
                Ok(interface) => Ok(blocks.push(implemented(target, interface))),
            },
        }
    }
}

/// What generation gives for a request. A sum type with a variant that does
/// not wrap exactly one value is refused before any interface is looked up;
/// otherwise the result is that of `blocks_for`.
pub open spec fn generated(
    table: Map<Seq<char>, Seq<Seq<char>>>,
    request: DelegationRequestView,
) -> Result<Seq<ImplBlockView>, DelegationErrorView> {
    match malformed_variant(request.target.variants) {
        Some(variant) => Err(
            DelegationErrorView::MalformedVariant { target: request.target.name, variant },
        ),
        None => blocks_for(table, request.target, request.interfaces),
    }
}

/// Builds the method that forwards `sig` for `target`.
pub fn forward(target: &SumTypeDescriptor, sig: &MethodSignature) -> (method: ForwardingMethod)
    ensures
        method@ == forwarding(target@, sig@),
{
    let ghost wanted = forwarding(target@, sig@).arms;
    let mut arms: Vec<Arm> = Vec::new();
    let mut i: usize = 0;
    assert(arms.deep_view() =~= wanted.take(0));
    while i < target.variants.len()
        invariant
            i <= target.variants.len(),
            wanted == forwarding(target@, sig@).arms,
            wanted.len() == target.variants.len(),
            arms.deep_view() == wanted.take(i as int),
        decreases target.variants.len() - i,
    {
        let ghost before = arms;
        let arguments = sig.argument_names();
        let arm = Arm {
            variant: target.variants[i].tag.clone(),
            binder: fresh_binder(&arguments),
            method: sig.name.clone(),
            arguments,
        };
        arms.push(arm);
        proof {
            lemma_deep_view_push(before, arms, arm);
            lemma_deep_view_index(target.variants, i as int);
            lemma_take_push(wanted, i as int);
        }
        i += 1;
    }
    assert(wanted.take(i as int) =~= wanted);
    ForwardingMethod { signature: sig.duplicate(), arms }
}

/// Builds the block by which `target` implements `interface`.
pub fn implement(target: &SumTypeDescriptor, interface: &InterfaceDescriptor) -> (block: ImplBlock)
    ensures
        block@ == implemented(target@, interface@),
{
    let ghost wanted = implemented(target@, interface@).methods;
    let mut methods: Vec<ForwardingMethod> = Vec::new();
    let mut i: usize = 0;
    assert(methods.deep_view() =~= wanted.take(0));
    while i < interface.signatures.len()
        invariant
            i <= interface.signatures.len(),
            wanted == implemented(target@, interface@).methods,
            wanted.len() == interface.signatures.len(),
            methods.deep_view() == wanted.take(i as int),
        decreases interface.signatures.len() - i,
    {
        let ghost before = methods;
        let method = forward(target, &interface.signatures[i]);
        methods.push(method);
        proof {
            lemma_deep_view_push(before, methods, method);
            lemma_deep_view_index(interface.signatures, i as int);
            lemma_take_push(wanted, i as int);
        }
        i += 1;
    }
    assert(wanted.take(i as int) =~= wanted);
    ImplBlock { interface: interface.name.clone(), target: target.name.clone(), methods }
}

/// Generates the implementation blocks that a request asks for: one per
/// interface, in the order of the request. Fails, and gives no block at all,
/// where a variant of the sum type does not wrap exactly one value, where an
/// interface is not in the registry, or where a stored signature cannot be
/// read back. The registry is only read.
pub fn generate(registry: &Registry, request: &DelegationRequest) -> (outcome: Result<
    Vec<ImplBlock>,
    DelegationError,
>)
    ensures
        match outcome {
            Ok(blocks) => generated(registry@, request@) == Ok::<_, DelegationErrorView>(
                blocks.deep_view(),
            ),
            Err(error) => generated(registry@, request@) == Err::<Seq<ImplBlockView>, _>(
                error@,
            ),
        },
{
    match request.target.first_malformed() {
        Some(k) => {
            proof {
                lemma_deep_view_index(request.target.variants, k as int);
            }
            return Err(
                DelegationError::MalformedVariant {
                    target: request.target.name.clone(),
                    variant: request.target.variants[k].tag.clone(),
                },
            );
        },
        None => {},
    }
    let ghost names = request@.interfaces;
    let mut blocks: Vec<ImplBlock> = Vec::new();
    let mut i: usize = 0;
    assert(names.take(0) =~= Seq::empty());
    assert(blocks.deep_view() =~= Seq::empty());
    while i < request.interfaces.len()
        invariant
            i <= request.interfaces.len(),
            names == request@.interfaces,
            names.len() == request.interfaces.len(),
            malformed_variant(request@.target.variants) is None,
            blocks_for(registry@, request@.target, names.take(i as int)) == Ok::<
                _,
                DelegationErrorView,
            >(blocks.deep_view()),
        decreases request.interfaces.len() - i,
    {
        let ghost before = blocks;
        proof {
            lemma_deep_view_index(request.interfaces, i as int);
            assert(names.take(i + 1).drop_last() =~= names.take(i as int));
            assert(names.take(i + 1).last() == names[i as int]);
        }
        match describe(registry, request.interfaces[i].as_str()) {
            Ok(interface) => {
                let block = implement(&request.target, &interface);
                blocks.push(block);
                proof {
                    lemma_deep_view_push(before, blocks, block);
                }
            },
            Err(error) => {
                proof {
                    lemma_blocks_for_fails_on(registry@, request@.target, names, i + 1);
                }
                return Err(error);
            },
        }
        i += 1;
    }
    assert(names.take(i as int) =~= names);
    Ok(blocks)
}

/// A failure on the first `n` names is the failure on all of them.
pub proof fn lemma_blocks_for_fails_on(
    table: Map<Seq<char>, Seq<Seq<char>>>,
    target: SumTypeView,
    names: Seq<Seq<char>>,
    n: int,
)
    requires
        0 <= n <= names.len(),
        blocks_for(table, target, names.take(n)) is Err,
    ensures
        blocks_for(table, target, names) == blocks_for(table, target, names.take(n)),
    decreases names.len() - n,
{
    if n < names.len() {
        assert(names.take(n + 1).drop_last() =~= names.take(n));
        lemma_blocks_for_fails_on(table, target, names, n + 1);
    } else {
        assert(names.take(n) =~= names);
    }
}

} // verus!
