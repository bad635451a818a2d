//! Interfaces: how they are captured into the registry and read back from it.

use crate::error::{DelegationError, DelegationErrorView};
use crate::registry::Registry;
use crate::signature::{MethodSignature, MethodSignatureView};
use crate::transport::{
    decode_signature, decoded, encode_signature, encoded, lemma_round_trip, method_name,
    named_method,
};
use crate::views::{lemma_deep_view_index, lemma_deep_view_push, lemma_take_push};
use vstd::prelude::*;

verus! {

/// One member of an interface declaration.
#[derive(Debug, PartialEq, Eq)]
pub enum Member {
    /// A method, with its signature.
    Method(MethodSignature),
    /// An associated type or constant, or anything else that is no method.
    Other,
}

/// The mathematical value of a [`Member`].
pub enum MemberView {
    Method(MethodSignatureView),
    Other,
}

impl View for Member {
    type V = MemberView;

    open spec fn view(&self) -> MemberView {
        match self {
            Member::Method(sig) => MemberView::Method(sig@),
            Member::Other => MemberView::Other,
        }
    }
}

impl DeepView for Member {
    type V = MemberView;

    open spec fn deep_view(&self) -> MemberView {
        self@
    }
}

/// An interface as it is declared: its name and its members in source order.
#[derive(Debug, PartialEq, Eq)]
pub struct InterfaceDeclaration {
    pub name: String,
    pub members: Vec<Member>,
}

/// The mathematical value of an [`InterfaceDeclaration`].
pub struct InterfaceDeclarationView {
    pub name: Seq<char>,
    pub members: Seq<MemberView>,
}

impl View for InterfaceDeclaration {
    type V = InterfaceDeclarationView;

    open spec fn view(&self) -> InterfaceDeclarationView {
        InterfaceDeclarationView { name: self.name@, members: self.members.deep_view() }
    }
}

/// An interface as generation uses it: its name and the signatures of its
/// methods, in the order in which they were captured.
#[derive(Debug, PartialEq, Eq)]
pub struct InterfaceDescriptor {
    pub name: String,
    pub signatures: Vec<MethodSignature>,
}

/// The mathematical value of an [`InterfaceDescriptor`].
pub struct InterfaceDescriptorView {
    pub name: Seq<char>,
    pub signatures: Seq<MethodSignatureView>,
}

impl View for InterfaceDescriptor {
    type V = InterfaceDescriptorView;

    open spec fn view(&self) -> InterfaceDescriptorView {
        InterfaceDescriptorView { name: self.name@, signatures: self.signatures.deep_view() }
    }
}

/// The signatures of the methods among the members, in source order. Members
/// that are no methods are passed over.
pub open spec fn methods_of(members: Seq<MemberView>) -> Seq<MethodSignatureView>
    decreases members.len(),
{
    if members.len() == 0 {
        Seq::empty()
    } else {
        match members.last() {
            MemberView::Method(sig) => methods_of(members.drop_last()).push(sig),
            MemberView::Other => methods_of(members.drop_last()),
        }
    }
}

/// What capture stores for a declaration: the transport form of each method.
pub open spec fn captured(members: Seq<MemberView>) -> Seq<Seq<char>> {
    Seq::new(methods_of(members).len(), |i: int| encoded(methods_of(members)[i]))
}

/// The place of the first stored signature that cannot be read back.
pub open spec fn unreadable(forms: Seq<Seq<char>>) -> Option<int>
    decreases forms.len(),
{
    if forms.len() == 0 {
        None
    } else {
        match unreadable(forms.drop_last()) {
            Some(k) => Some(k),
            None => if decoded(forms.last()) is None {
                Some(forms.len() - 1)
            } else {
                None
            },
        }
    }
}

/// The signatures that stored forms stand for, where each stands for one.
pub open spec fn signatures_of(forms: Seq<Seq<char>>) -> Seq<MethodSignatureView> {
    Seq::new(forms.len(), |i: int| decoded(forms[i])->0)
}

/// What reading an interface back from the registry gives: the descriptor, or
/// the reason why there is none. An interface that was never registered is
/// unknown; one with a stored form that stands for no signature is malformed,
/// and the first such form is reported.
pub open spec fn described(table: Map<Seq<char>, Seq<Seq<char>>>, name: Seq<char>) -> Result<
    InterfaceDescriptorView,
    DelegationErrorView,
> {
    if !table.contains_key(name) {
        Err(DelegationErrorView::UnknownInterface { interface: name })
    } else {
        match unreadable(table[name]) {
            Some(k) => Err(
                DelegationErrorView::MalformedSignature {
                    interface: name,
                    method: named_method(table[name][k]),
                },
            ),
            None => Ok(
                InterfaceDescriptorView { name, signatures: signatures_of(table[name]) },
            ),
        }
    }
}

/// `unreadable` names the first form that stands for no signature, and names
/// none exactly when every form stands for one.
pub proof fn lemma_unreadable(forms: Seq<Seq<char>>)
    ensures
        match unreadable(forms) {
            Some(k) => {
                &&& 0 <= k < forms.len()
                &&& decoded(forms[k]) is None
                &&& forall|j: int| 0 <= j < k ==> (#[trigger] decoded(forms[j])) is Some
            },
            None => forall|j: int| 0 <= j < forms.len() ==> (#[trigger] decoded(forms[j])) is Some,
        },
    decreases forms.len(),
{
    if forms.len() > 0 {
        let front = forms.drop_last();
        lemma_unreadable(front);
        assert forall|j: int| 0 <= j < front.len() implies front[j] == forms[j] by {}
        match unreadable(front) {
            Some(k) => {
                assert(front[k] == forms[k]);
                assert forall|j: int| 0 <= j < k implies (#[trigger] decoded(forms[j])) is Some by {
                    assert(front[j] == forms[j]);
                }
            },
            None => {
                assert forall|j: int| 0 <= j < forms.len() - 1 implies (#[trigger] decoded(
                    forms[j],
                )) is Some by {
                    assert(front[j] == forms[j]);
                }
            },
        }
    }
}

/// Stores the methods of a declaration in the registry, under the name of the
/// interface and in source order. Members that are no methods are passed over.
/// What the registry held under that name before is replaced.
pub fn capture(registry: &mut Registry, declaration: &InterfaceDeclaration)
    ensures
        final(registry)@ == old(registry)@.insert(
            declaration@.name,
            captured(declaration@.members),
        ),
{
    let ghost members = declaration@.members;
    let mut forms: Vec<String> = Vec::new();
    let mut i: usize = 0;
    assert(forms.deep_view() =~= captured(members.take(0)));
    while i < declaration.members.len()
        invariant
            i <= declaration.members.len(),
            members == declaration@.members,
            members.len() == declaration.members.len(),
            forms.deep_view() == captured(members.take(i as int)),
        decreases declaration.members.len() - i,
    {
        let ghost before = forms;
        proof {
            lemma_deep_view_index(declaration.members, i as int);
            assert(members.take(i + 1).drop_last() =~= members.take(i as int));
            assert(members.take(i + 1).last() == members[i as int]);
        }
        match &declaration.members[i] {
            Member::Method(sig) => {
                let form = encode_signature(sig);
                forms.push(form);
                proof {
                    lemma_deep_view_push(before, forms, form);
                    assert(forms.deep_view() =~= captured(members.take(i + 1)));
                }
            },
            Member::Other => {
                assert(forms.deep_view() =~= captured(members.take(i + 1)));
            },
        }
        i += 1;
    }
    assert(members.take(i as int) =~= members);
    registry.register(declaration.name.as_str(), forms);
}

/// Reads an interface back from the registry.
pub fn describe(registry: &Registry, name: &str) -> (found: Result<
    InterfaceDescriptor,
    DelegationError,
>)
    ensures
        match found {
            Ok(interface) => described(registry@, name@) == Ok::<_, DelegationErrorView>(
                interface@,
            ),
            Err(error) => described(registry@, name@) == Err::<InterfaceDescriptorView, _>(
                error@,
            ),
        },
{
    let forms = match registry.lookup(name) {
        Ok(forms) => forms,
        Err(error) => {
            return Err(error);
        },
    };
    let ghost all = forms.deep_view();
    let mut signatures: Vec<MethodSignature> = Vec::new();
    let mut i: usize = 0;
    assert(signatures.deep_view() =~= signatures_of(all).take(0));
    assert(all.take(0) =~= Seq::empty());
    while i < forms.len()
        invariant
            i <= forms.len(),
            all == forms.deep_view(),
            all.len() == forms.len(),
            all == registry@[name@],
            registry@.contains_key(name@),
            unreadable(all.take(i as int)) is None,
            signatures.deep_view() == signatures_of(all).take(i as int),
        decreases forms.len() - i,
    {
        let ghost before = signatures;
        proof {
            lemma_deep_view_index(forms, i as int);
            assert(all.take(i + 1).drop_last() =~= all.take(i as int));
            assert(all.take(i + 1).last() == all[i as int]);
        }
        match decode_signature(forms[i].as_str()) {
            Some(sig) => {
                signatures.push(sig);
                proof {
                    lemma_deep_view_push(before, signatures, sig);
                    lemma_take_push(signatures_of(all), i as int);
                }
            },
            None => {
                let method = method_name(forms[i].as_str());
                proof {
                    lemma_unreadable_extends(all, i + 1);
                }
                return Err(
                    DelegationError::MalformedSignature { interface: name.to_owned(), method },
                );
            },
        }
        i += 1;
    }
    assert(all.take(i as int) =~= all);
    assert(signatures_of(all).take(i as int) =~= signatures_of(all));
    Ok(InterfaceDescriptor { name: name.to_owned(), signatures })
}

/// An unreadable form among the first `n` forms is the first unreadable form
/// among all of them.
pub proof fn lemma_unreadable_extends(forms: Seq<Seq<char>>, n: int)
    requires
        0 <= n <= forms.len(),
        unreadable(forms.take(n)) is Some,
    ensures
        unreadable(forms) == unreadable(forms.take(n)),
    decreases forms.len() - n,
{
    if n < forms.len() {
        assert(forms.take(n + 1).drop_last() =~= forms.take(n));
        lemma_unreadable_extends(forms, n + 1);
    } else {
        assert(forms.take(n) =~= forms);
    }
}

/// What capture stores can be read back: every method of the declaration comes
/// back as it was declared, its name, receiver, parameters and return type,
/// and in the order of the declaration.
pub proof fn lemma_captured_is_readable(members: Seq<MemberView>)
    ensures
        unreadable(captured(members)) is None,
        signatures_of(captured(members)) == methods_of(members),
{
    let forms = captured(members);
    lemma_unreadable(forms);
    assert forall|i: int| 0 <= i < forms.len() implies decoded(#[trigger] forms[i]) == Some(
        methods_of(members)[i],
    ) by {
        lemma_round_trip(methods_of(members)[i]);
    }
    assert(signatures_of(forms) =~= methods_of(members));
}

} // verus!
