//! What holds of every capture and every generation.

use crate::binder::lemma_binder_is_fresh;
use crate::error::DelegationErrorView;
use crate::generator::{
    blocks_for, forwarding, generated, implemented, ArmView, ForwardingMethodView, ImplBlockView,
};
use crate::interface::{
    captured, described, lemma_captured_is_readable, methods_of, InterfaceDescriptorView,
    MemberView,
};
use crate::signature::{param_names, MethodSignatureView};
use crate::transport::decoded;
use crate::sum_type::{
    distinct_tags, every_variant_wraps_one, lemma_malformed_variant, DelegationRequestView,
    SumTypeView,
};
use vstd::prelude::*;

verus! {

/// A call as it is evaluated: the value that the method is called on, the
/// method's name, and the values of the arguments in order.
pub struct CallView<V> {
    pub receiver: V,
    pub method: Seq<char>,
    pub arguments: Seq<V>,
}

/// The call that a caller makes who holds the value `wrapped` itself and
/// invokes the method of `sig` on it, where `scope` gives each parameter its
/// value.
pub open spec fn direct_call<V>(
    sig: MethodSignatureView,
    scope: Map<Seq<char>, V>,
    wrapped: V,
) -> CallView<V> {
    CallView {
        receiver: wrapped,
        method: sig.name,
        arguments: Seq::new(sig.params.len(), |i: int| scope[sig.params[i].name]),
    }
}

/// The call that an arm makes. The arm binds `wrapped` to its own name for it,
/// inside the scope of the method, in which `scope` gives each parameter its
/// value; receiver and arguments are looked up by name in the scope that
/// results.
pub open spec fn arm_call<V>(arm: ArmView, scope: Map<Seq<char>, V>, wrapped: V) -> CallView<V> {
    let inside = scope.insert(arm.binder, wrapped);
    CallView {
        receiver: inside[arm.binder],
        method: arm.method,
        arguments: Seq::new(arm.arguments.len(), |i: int| inside[arm.arguments[i]]),
    }
}

/// The arm that a dispatch takes where the sum type holds the variant `tag`:
/// the first arm for that variant.
pub open spec fn selected_arm(arms: Seq<ArmView>, tag: Seq<char>) -> Option<ArmView>
    decreases arms.len(),
{
    if arms.len() == 0 {
        None
    } else if arms[0].variant == tag {
        Some(arms[0])
    } else {
        selected_arm(arms.skip(1), tag)
    }
}

/// The call that a generated method makes where the sum type holds the
/// variant `tag`, which wraps `wrapped`; `None` where it has no arm for that
/// variant.
pub open spec fn forwarded_call<V>(
    method: ForwardingMethodView,
    tag: Seq<char>,
    scope: Map<Seq<char>, V>,
    wrapped: V,
) -> Option<CallView<V>> {
    match selected_arm(method.arms, tag) {
        Some(arm) => Some(arm_call(arm, scope, wrapped)),
        None => None,
    }
}

/// Where one of the arms is for `tag`, an arm is selected, and it is one of
/// the arms for `tag`.
proof fn lemma_selected_arm(arms: Seq<ArmView>, tag: Seq<char>, i: int)
    requires
        0 <= i < arms.len(),
        arms[i].variant == tag,
    ensures
        exists|k: int|
            0 <= k < arms.len() && selected_arm(arms, tag) == Some(#[trigger] arms[k])
                && arms[k].variant == tag,
    decreases arms.len(),
{
    if arms[0].variant != tag {
        let rest = arms.skip(1);
        assert(rest[i - 1] == arms[i]);
        lemma_selected_arm(rest, tag, i - 1);
        let k = choose|k: int|
            0 <= k < rest.len() && selected_arm(rest, tag) == Some(#[trigger] rest[k])
                && rest[k].variant == tag;
        assert(arms[k + 1] == rest[k]);
    }
}

/// What `blocks_for` gives, name by name. It succeeds exactly when every name
/// can be read back from the table; the blocks then stand in the order of the
/// names, and the block at a place is made from the name at that place alone.
pub proof fn lemma_blocks_for(
    table: Map<Seq<char>, Seq<Seq<char>>>,
    target: SumTypeView,
    names: Seq<Seq<char>>,
)
    ensures
        blocks_for(table, target, names) is Ok <==> forall|i: int|
            0 <= i < names.len() ==> (#[trigger] described(table, names[i])) is Ok,
        blocks_for(table, target, names) matches Ok(blocks) ==> {
            &&& blocks.len() == names.len()
            &&& forall|i: int|
                0 <= i < names.len() ==> (#[trigger] blocks[i]) == implemented(
                    target,
                    described(table, names[i])->Ok_0,
                )
        },
    decreases names.len(),
{
    if names.len() > 0 {
        let front = names.drop_last();
        lemma_blocks_for(table, target, front);
        assert forall|i: int| 0 <= i < front.len() implies front[i] == names[i] by {}
        if blocks_for(table, target, names) is Ok {
            assert forall|i: int| 0 <= i < names.len() implies (#[trigger] described(
                table,
                names[i],
            )) is Ok by {
                if i < front.len() {
                    assert(described(table, front[i]) is Ok);
                }
            }
        }
        if forall|i: int| 0 <= i < names.len() ==> (#[trigger] described(table, names[i])) is Ok {
            assert forall|i: int| 0 <= i < front.len() implies (#[trigger] described(
                table,
                front[i],
            )) is Ok by {
                assert(described(table, names[i]) is Ok);
            }
            assert(described(table, names[names.len() - 1]) is Ok);
        }
    }
}

/// The first name that cannot be read back decides the failure.
pub proof fn lemma_first_failure(
    table: Map<Seq<char>, Seq<Seq<char>>>,
    target: SumTypeView,
    names: Seq<Seq<char>>,
    k: int,
)
    requires
        0 <= k < names.len(),
        described(table, names[k]) is Err,
        forall|j: int| 0 <= j < k ==> (#[trigger] described(table, names[j])) is Ok,
    ensures
        blocks_for(table, target, names) == Err::<Seq<ImplBlockView>, _>(
            described(table, names[k])->Err_0,
        ),
    decreases names.len(),
{
    let front = names.drop_last();
    if k == names.len() - 1 {
        lemma_blocks_for(table, target, front);
        assert forall|i: int| 0 <= i < front.len() implies (#[trigger] described(
            table,
            front[i],
        )) is Ok by {
            assert(front[i] == names[i]);
            assert(described(table, names[i]) is Ok);
        }
    } else {
        assert(front[k] == names[k]);
        assert forall|j: int| 0 <= j < k implies (#[trigger] described(table, front[j])) is Ok by {
            assert(front[j] == names[j]);
            assert(described(table, names[j]) is Ok);
        }
        lemma_first_failure(table, target, front, k);
    }
}

/// A request that names an interface which was never registered gets no
/// implementation block, for none of its interfaces.
pub proof fn lemma_unknown_interface_gives_no_block(
    table: Map<Seq<char>, Seq<Seq<char>>>,
    request: DelegationRequestView,
    k: int,
)
    requires
        0 <= k < request.interfaces.len(),
        !table.contains_key(request.interfaces[k]),
    ensures
        generated(table, request) is Err,
{
    lemma_blocks_for(table, request.target, request.interfaces);
    assert(described(table, request.interfaces[k]) is Err);
}

/// A request that names an interface which was never registered fails with
/// `UnknownInterface` for that name, where every variant of the sum type wraps
/// one value and the names before it can be read back.
pub proof fn lemma_unknown_interface_fails(
    table: Map<Seq<char>, Seq<Seq<char>>>,
    request: DelegationRequestView,
    k: int,
)
    requires
        every_variant_wraps_one(request.target.variants),
        0 <= k < request.interfaces.len(),
        !table.contains_key(request.interfaces[k]),
        forall|j: int|
            0 <= j < k ==> (#[trigger] described(table, request.interfaces[j])) is Ok,
    ensures
        generated(table, request) == Err::<Seq<ImplBlockView>, _>(
            DelegationErrorView::UnknownInterface { interface: request.interfaces[k] },
        ),
{
    lemma_malformed_variant(request.target.variants);
    lemma_first_failure(table, request.target, request.interfaces, k);
}

/// Asking for two interfaces in the other order gives the same two blocks in
/// the other order, and fails exactly when the first order fails.
pub proof fn lemma_order_of_interfaces(
    table: Map<Seq<char>, Seq<Seq<char>>>,
    target: SumTypeView,
    first: Seq<char>,
    second: Seq<char>,
)
    ensures
        ({
            let one = generated(
                table,
                DelegationRequestView { target, interfaces: seq![first, second] },
            );
            let other = generated(
                table,
                DelegationRequestView { target, interfaces: seq![second, first] },
            );
            &&& one is Ok <==> other is Ok
            &&& one is Ok ==> {
                &&& one->Ok_0.len() == 2
                &&& other->Ok_0 == seq![one->Ok_0[1], one->Ok_0[0]]
            }
        }),
{
    let forth = seq![first, second];
    let back = seq![second, first];
    lemma_blocks_for(table, target, forth);
    lemma_blocks_for(table, target, back);
    assert(forth[0] == first && forth[1] == second);
    assert(back[0] == second && back[1] == first);
    if blocks_for(table, target, forth) is Ok {
        assert(described(table, forth[0]) is Ok);
        assert(described(table, forth[1]) is Ok);
        assert(blocks_for(table, target, back) is Ok);
        let one = blocks_for(table, target, forth)->Ok_0;
        let other = blocks_for(table, target, back)->Ok_0;
        assert(other[0] == one[1]);
        assert(other[1] == one[0]);
        assert(other =~= seq![one[1], one[0]]);
    }
    if blocks_for(table, target, back) is Ok {
        assert(described(table, back[0]) is Ok);
        assert(described(table, back[1]) is Ok);
        assert(blocks_for(table, target, forth) is Ok);
    }
}

/// What a successful generation holds: one block per name of the request, in
/// order, and in the block for a name one method per signature stored under
/// that name, in the order in which they are stored, each with the signature
/// that the stored form stands for.
pub proof fn lemma_generated_blocks(
    table: Map<Seq<char>, Seq<Seq<char>>>,
    request: DelegationRequestView,
    b: int,
)
    requires
        generated(table, request) is Ok,
        0 <= b < request.interfaces.len(),
    ensures
        generated(table, request)->Ok_0.len() == request.interfaces.len(),
        table.contains_key(request.interfaces[b]),
        described(table, request.interfaces[b]) is Ok,
        generated(table, request)->Ok_0[b] == implemented(
            request.target,
            described(table, request.interfaces[b])->Ok_0,
        ),
        generated(table, request)->Ok_0[b].interface == request.interfaces[b],
        generated(table, request)->Ok_0[b].target == request.target.name,
        generated(table, request)->Ok_0[b].methods.len() == table[request.interfaces[b]].len(),
        forall|m: int|
            0 <= m < table[request.interfaces[b]].len() ==> (#[trigger] generated(
                table,
                request,
            )->Ok_0[b].methods[m]).signature == decoded(table[request.interfaces[b]][m])->0,
{
    lemma_blocks_for(table, request.target, request.interfaces);
    assert(described(table, request.interfaces[b]) is Ok);
}

/// The dispatch of every generated method is exhaustive: it has exactly one
/// arm per variant of the sum type, in the order in which the variants are
/// declared.
pub proof fn lemma_dispatch_is_exhaustive(
    table: Map<Seq<char>, Seq<Seq<char>>>,
    request: DelegationRequestView,
    b: int,
    m: int,
)
    requires
        generated(table, request) is Ok,
        0 <= b < generated(table, request)->Ok_0.len(),
        0 <= m < generated(table, request)->Ok_0[b].methods.len(),
    ensures
        ({
            let method = generated(table, request)->Ok_0[b].methods[m];
            &&& method.arms.len() == request.target.variants.len()
            &&& forall|i: int|
                0 <= i < method.arms.len() ==> (#[trigger] method.arms[i]).variant
                    == request.target.variants[i].tag
        }),
{
    lemma_blocks_for(table, request.target, request.interfaces);
    lemma_generated_blocks(table, request, b);
}

/// Every generated method forwards faithfully: where the sum type holds a
/// variant, invoking the method on the sum type makes the call that invoking
/// it on the wrapped value makes, the same method on the same value with the
/// same arguments in the same order, whatever the arguments are.
pub proof fn lemma_forwarding_is_faithful<V>(
    table: Map<Seq<char>, Seq<Seq<char>>>,
    request: DelegationRequestView,
    b: int,
    m: int,
    v: int,
    scope: Map<Seq<char>, V>,
    wrapped: V,
)
    requires
        generated(table, request) is Ok,
        0 <= b < generated(table, request)->Ok_0.len(),
        0 <= m < generated(table, request)->Ok_0[b].methods.len(),
        0 <= v < request.target.variants.len(),
    ensures
        ({
            let method = generated(table, request)->Ok_0[b].methods[m];
            forwarded_call(method, request.target.variants[v].tag, scope, wrapped) == Some(
                direct_call(method.signature, scope, wrapped),
            )
        }),
{
    lemma_blocks_for(table, request.target, request.interfaces);
    lemma_generated_blocks(table, request, b);
    let method = generated(table, request)->Ok_0[b].methods[m];
    let sig = method.signature;
    let tag = request.target.variants[v].tag;
    assert(method == forwarding(request.target, sig));
    assert(method.arms[v].variant == tag);
    lemma_selected_arm(method.arms, tag, v);
    let k = choose|k: int|
        0 <= k < method.arms.len() && selected_arm(method.arms, tag) == Some(
            #[trigger] method.arms[k],
        ) && method.arms[k].variant == tag;
    let arm = method.arms[k];
    lemma_binder_is_fresh(param_names(sig));
    assert forall|i: int| 0 <= i < sig.params.len() implies scope.insert(
        arm.binder,
        wrapped,
    )[arm.arguments[i]] == scope[sig.params[i].name] by {
        assert(param_names(sig)[i] == sig.params[i].name);
        assert(param_names(sig).contains(param_names(sig)[i]));
    }
    assert(arm_call(arm, scope, wrapped).arguments =~= direct_call(
        sig,
        scope,
        wrapped,
    ).arguments);
}

/// Where no two variants share a tag, the dispatch of every generated method
/// takes, for a variant, the arm that stands at the place of that variant.
pub proof fn lemma_dispatch_takes_the_arm_of_the_variant(
    table: Map<Seq<char>, Seq<Seq<char>>>,
    request: DelegationRequestView,
    b: int,
    m: int,
    v: int,
)
    requires
        generated(table, request) is Ok,
        distinct_tags(request.target.variants),
        0 <= b < generated(table, request)->Ok_0.len(),
        0 <= m < generated(table, request)->Ok_0[b].methods.len(),
        0 <= v < request.target.variants.len(),
    ensures
        ({
            let method = generated(table, request)->Ok_0[b].methods[m];
            selected_arm(method.arms, request.target.variants[v].tag) == Some(method.arms[v])
        }),
{
    lemma_blocks_for(table, request.target, request.interfaces);
    lemma_generated_blocks(table, request, b);
    let method = generated(table, request)->Ok_0[b].methods[m];
    let tag = request.target.variants[v].tag;
    assert(method == forwarding(request.target, method.signature));
    assert(method.arms[v].variant == tag);
    lemma_selected_arm(method.arms, tag, v);
    let k = choose|k: int|
        0 <= k < method.arms.len() && selected_arm(method.arms, tag) == Some(
            #[trigger] method.arms[k],
        ) && method.arms[k].variant == tag;
    assert(method.arms[k].variant == request.target.variants[k].tag);
    if k < v {
        assert(request.target.variants[k].tag != request.target.variants[v].tag);
    } else if v < k {
        assert(request.target.variants[v].tag != request.target.variants[k].tag);
    }
}

/// An interface that was captured is read back as it was declared: the
/// descriptor holds the methods of the declaration, each with its name, its
/// receiver, its parameters and its return type, in the order of the
/// declaration.
pub proof fn lemma_capture_then_describe(
    table: Map<Seq<char>, Seq<Seq<char>>>,
    name: Seq<char>,
    members: Seq<MemberView>,
)
    ensures
        described(table.insert(name, captured(members)), name) == Ok::<_, DelegationErrorView>(
            InterfaceDescriptorView { name, signatures: methods_of(members) },
        ),
{
    lemma_captured_is_readable(members);
}

/// Registering a name a second time replaces what the first registration
/// stored: only the second list is looked up afterwards, and every other name
/// is read back as before.
pub proof fn lemma_second_registration_wins(
    table: Map<Seq<char>, Seq<Seq<char>>>,
    name: Seq<char>,
    first: Seq<Seq<char>>,
    second: Seq<Seq<char>>,
    other: Seq<char>,
)
    ensures
        table.insert(name, first).insert(name, second)[name] == second,
        table.insert(name, first).insert(name, second) == table.insert(name, second),
        other != name ==> described(table.insert(name, first).insert(name, second), other)
            == described(table, other),
{
    assert(table.insert(name, first).insert(name, second) =~= table.insert(name, second));
}

} // verus!
