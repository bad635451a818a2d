//! Reading declarations from source text.
//!
//! The parsing of Rust syntax is left to `syn`, and the printing of syntax
//! trees to `quote`. What they return is taken over as plain text and numbers;
//! everything that is decided about it is decided here.

use crate::error::{DelegationError, DelegationErrorView};
use crate::interface::{InterfaceDeclaration, InterfaceDeclarationView, Member, MemberView};
use crate::lines::{copy_texts, same_text};
use crate::signature::{MethodSignature, MethodSignatureView, Param, ParamView, Receiver};
use crate::sum_type::{SumTypeDescriptor, SumTypeView, VariantDescriptor, VariantView};
use crate::views::{lemma_deep_view_index, lemma_deep_view_push, lemma_take_push};
use quote::ToTokens;
use syn::{Fields, FnArg, ItemEnum, ItemTrait, Meta, ReturnType, Signature, TraitItem};
use vstd::prelude::*;
use vstd::string::*;

verus! {

/// What `syn` reads the text of a method signature as. `None` where the text
/// is no signature; else four parts, in this order:
/// - the method's name;
/// - what the signature holds besides its name, its inputs and its return
///   type, that is, the qualifiers before `fn`, the generic parameters, the
///   `where` clause and a variadic argument, printed one after the other, and
///   the empty text where it has none of them;
/// - the inputs in order, a receiver as its own text with no type, any other
///   input as the text of its pattern and the text of its type;
/// - the return type, where it names one.
pub uninterp spec fn signature_source(text: Seq<char>) -> Option<
    (Seq<char>, Seq<char>, Seq<(Seq<char>, Option<Seq<char>>)>, Option<Seq<char>>),
>;

/// Parses `text` with `syn::parse_str::<syn::Signature>` and hands out the
/// method's name, its inputs and its return type, each printed by
/// `quote::ToTokens::to_token_stream`. Nothing is claimed of them but that they
/// depend on `text` alone.
#[verifier::external_body]
fn read_signature(text: &str) -> (parts: Option<
    (String, Vec<(String, Option<String>)>, Option<String>),
>)
    ensures
        parts.deep_view() == match signature_source(text@) {
            Some(source) => Some((source.0, source.2, source.3)),
            None => None,
        },
{
    let sig = syn::parse_str::<Signature>(text).ok()?;
    let inputs = sig.inputs.iter().map(|input| match input {
        FnArg::Receiver(receiver) => (receiver.to_token_stream().to_string(), None),
        FnArg::Typed(typed) => (
            typed.pat.to_token_stream().to_string(),
            Some(typed.ty.to_token_stream().to_string()),
        ),
    }).collect();
    let output = match &sig.output {
        ReturnType::Default => None,
        ReturnType::Type(_, ty) => Some(ty.to_token_stream().to_string()),
    };
    Some((sig.ident.to_string(), inputs, output))
}

/// Parses `text` with `syn::parse_str::<syn::Signature>` and prints, with
/// `quote::ToTokens::to_tokens`, the fields of the signature that
/// `read_signature` does not hand out. Nothing is claimed of the text but that
/// it depends on `text` alone.
#[verifier::external_body]
fn read_signature_extras(text: &str) -> (extras: Option<String>)
    ensures
        extras.deep_view() == match signature_source(text@) {
            Some(source) => Some(source.1),
            None => None,
        },
{
    let sig = syn::parse_str::<Signature>(text).ok()?;
    let mut extras = proc_macro2::TokenStream::new();
    sig.constness.to_tokens(&mut extras);
    sig.asyncness.to_tokens(&mut extras);
    sig.unsafety.to_tokens(&mut extras);
    sig.abi.to_tokens(&mut extras);
    sig.generics.to_tokens(&mut extras);
    sig.generics.where_clause.to_tokens(&mut extras);
    sig.variadic.to_tokens(&mut extras);
    Some(extras.to_string())
}

/// The receiver that the text of a receiver stands for, with or without a
/// space behind the `&`. A receiver with a lifetime or with a type of its own
/// stands for none.
pub open spec fn receiver_in(text: Seq<char>) -> Option<Receiver> {
    if text == "self"@ || text == "mut self"@ {
        Some(Receiver::Value)
    } else if text == "& self"@ || text == "&self"@ {
        Some(Receiver::Ref)
    } else if text == "& mut self"@ || text == "&mut self"@ {
        Some(Receiver::RefMut)
    } else {
        None
    }
}

/// Whether every input after the first has a type, that is, is no receiver.
pub open spec fn typed_after_first(inputs: Seq<(Seq<char>, Option<Seq<char>>)>) -> bool {
    forall|i: int| 1 <= i < inputs.len() ==> (#[trigger] inputs[i]).1 is Some
}

/// The signature that the parts of a parsed signature amount to. There is one
/// where the signature holds nothing besides its name, its inputs and its
/// return type, its first input is a receiver by value, by reference or by
/// mutable reference, and no other input is a receiver. The parameters are the
/// inputs after the receiver, in order.
pub open spec fn signature_in(
    source: (Seq<char>, Seq<char>, Seq<(Seq<char>, Option<Seq<char>>)>, Option<Seq<char>>),
) -> Option<MethodSignatureView> {
    let inputs = source.2;
    if source.1.len() != 0 || inputs.len() == 0 || inputs[0].1 is Some || receiver_in(
        inputs[0].0,
    ) is None || !typed_after_first(inputs) {
        None
    } else {
        Some(
            MethodSignatureView {
                name: source.0,
                receiver: receiver_in(inputs[0].0)->0,
                params: Seq::new(
                    (inputs.len() - 1) as nat,
                    |i: int| ParamView { name: inputs[i + 1].0, ty: inputs[i + 1].1->0 },
                ),
                ret: source.3,
            },
        )
    }
}

/// The signature that a source text declares, where it declares one that can
/// be delegated.
pub open spec fn declared_signature(text: Seq<char>) -> Option<MethodSignatureView> {
    match signature_source(text) {
        Some(source) => signature_in(source),
        None => None,
    }
}

/// The name by which a diagnostic calls the method of a source text: the
/// method's name where the text is a signature, else the text itself.
pub open spec fn method_label(text: Seq<char>) -> Seq<char> {
    match signature_source(text) {
        Some(source) => source.0,
        None => text,
    }
}

/// Reads the text of a receiver.
pub fn receiver_from_source(text: &str) -> (receiver: Option<Receiver>)
    ensures
        receiver == receiver_in(text@),
{
    if same_text(text, "self") || same_text(text, "mut self") {
        Some(Receiver::Value)
    } else if same_text(text, "& self") || same_text(text, "&self") {
        Some(Receiver::Ref)
    } else if same_text(text, "& mut self") || same_text(text, "&mut self") {
        Some(Receiver::RefMut)
    } else {
        None
    }
}

/// Builds a signature from the parts of a parsed one; `None` where the
/// signature holds more than a name, inputs and a return type, where its first
/// input is no receiver of the three kinds, or where a later input is a
/// receiver.
pub fn signature_from_source(
    source: &(String, String, Vec<(String, Option<String>)>, Option<String>),
) -> (sig: Option<MethodSignature>)
    ensures
        sig.deep_view() == signature_in(source.deep_view()),
{
    let ghost inputs = source.deep_view().2;
    if !source.1.as_str().is_empty() || source.2.len() == 0 {
        return None;
    }
    proof {
        lemma_deep_view_index(source.2, 0);
    }
    if source.2[0].1.is_some() {
        return None;
    }
    let receiver = match receiver_from_source(source.2[0].0.as_str()) {
        Some(receiver) => receiver,
        None => {
            return None;
        },
    };
    let ghost wanted = Seq::new(
        (inputs.len() - 1) as nat,
        |i: int| ParamView { name: inputs[i + 1].0, ty: inputs[i + 1].1->0 },
    );
    let mut params: Vec<Param> = Vec::new();
    let mut i: usize = 1;
    assert(params.deep_view() =~= wanted.take(0));
    while i < source.2.len()
        invariant
            1 <= i <= source.2.len(),
            inputs == source.deep_view().2,
            inputs.len() == source.2.len(),
            wanted == Seq::new(
                (inputs.len() - 1) as nat,
                |i: int| ParamView { name: inputs[i + 1].0, ty: inputs[i + 1].1->0 },
            ),
            forall|j: int| 1 <= j < i ==> (#[trigger] inputs[j]).1 is Some,
            params.deep_view() == wanted.take(i - 1),
        decreases source.2.len() - i,
    {
        let ghost before = params;
        proof {
            lemma_deep_view_index(source.2, i as int);
        }
        match &source.2[i].1 {
            Some(ty) => {
                let param = Param { name: source.2[i].0.clone(), ty: ty.clone() };
                params.push(param);
                proof {
                    lemma_deep_view_push(before, params, param);
                    lemma_take_push(wanted, i - 1);
                }
            },
            None => {
                assert(!typed_after_first(inputs));
                return None;
            },
        }
        i += 1;
    }
    assert(wanted.take(i - 1) =~= wanted);
    let ret = match &source.3 {
        Some(ty) => Some(ty.clone()),
        None => None,
    };
    Some(MethodSignature { name: source.0.clone(), receiver, params, ret })
}

/// Reads the parts of a method signature from source text.
fn signature_parts(text: &str) -> (source: Option<
    (String, String, Vec<(String, Option<String>)>, Option<String>),
>)
    ensures
        source.deep_view() == signature_source(text@),
{
    match (read_signature(text), read_signature_extras(text)) {
        (Some(parts), Some(extras)) => Some((parts.0, extras, parts.1, parts.2)),
        _ => None,
    }
}

/// Reads a method signature from source text; `None` where the text is no
/// signature, or none that can be delegated.
pub fn parse_signature(text: &str) -> (sig: Option<MethodSignature>)
    ensures
        sig.deep_view() == declared_signature(text@),
{
    match signature_parts(text) {
        Some(source) => signature_from_source(&source),
        None => None,
    }
}

/// What `syn` reads the text of a trait declaration as: the trait's name, the
/// number of its generic parameters, and its members in source order, a method
/// as the text of its signature and any other member as `None`. `None` where
/// the text is no trait declaration.
pub uninterp spec fn trait_source(text: Seq<char>) -> Option<
    (Seq<char>, usize, Seq<Option<Seq<char>>>),
>;

/// Parses `text` with `syn::parse_str::<syn::ItemTrait>` and hands out the
/// trait's name, the number of its generic parameters and its members, the
/// signature of each method printed by `quote::ToTokens::to_token_stream`.
/// Nothing is claimed of the parts but that they depend on `text` alone.
#[verifier::external_body]
fn read_trait(text: &str) -> (parts: Option<(String, usize, Vec<Option<String>>)>)
    ensures
        parts.deep_view() == trait_source(text@),
{
    let item = syn::parse_str::<ItemTrait>(text).ok()?;
    let members = item.items.iter().map(|member| match member {
        TraitItem::Fn(method) => Some(method.sig.to_token_stream().to_string()),
        _ => None,
    }).collect();
    Some((item.ident.to_string(), item.generics.params.len(), members))
}

/// What `syn` reads the text of an enum declaration as: the enum's name, the
/// number of its generic parameters, and its variants in source order, each
/// with its name and the types of its positional fields. A variant with named
/// fields or with none has no positional field. `None` where the text is no
/// enum declaration.
pub uninterp spec fn enum_source(text: Seq<char>) -> Option<
    (Seq<char>, usize, Seq<(Seq<char>, Seq<Seq<char>>)>),
>;

/// Parses `text` with `syn::parse_str::<syn::ItemEnum>` and hands out the
/// enum's name, the number of its generic parameters and its variants, the
/// type of each positional field printed by `quote::ToTokens::to_token_stream`.
/// Nothing is claimed of the parts but that they depend on `text` alone.
#[verifier::external_body]
fn read_enum(text: &str) -> (parts: Option<(String, usize, Vec<(String, Vec<String>)>)>)
    ensures
        parts.deep_view() == enum_source(text@),
{
    let item = syn::parse_str::<ItemEnum>(text).ok()?;
    let variants = item.variants.iter().map(|variant| {
        let wrapped = match &variant.fields {
            Fields::Unnamed(fields) => fields.unnamed.iter().map(
                |field| field.ty.to_token_stream().to_string(),
            ).collect(),
            _ => Vec::new(),
        };
        (variant.ident.to_string(), wrapped)
    }).collect();
    Some((item.ident.to_string(), item.generics.params.len(), variants))
}

/// What `syn` reads the tokens of an argument list as, token by token: `None`
/// for a token that is no path, such as a comma; `Some(None)` for a path that
/// is more than one identifier; `Some(Some(name))` for an identifier. `None`
/// for the whole where the text is no sequence of tokens.
pub uninterp spec fn path_list_source(text: Seq<char>) -> Option<
    Seq<Option<Option<Seq<char>>>>,
>;

/// Cuts `text` into tokens with `proc_macro2::TokenStream::from_str`, parses
/// each token by itself with `syn::parse2::<syn::Meta>` and, of one that is a
/// path, hands out what `syn::Path::get_ident` gives. Nothing is claimed of the
/// result but that it depends on `text` alone.
#[verifier::external_body]
fn read_path_list(text: &str) -> (paths: Option<Vec<Option<Option<String>>>>)
    ensures
        paths.deep_view() == path_list_source(text@),
{
    let tokens = text.parse::<proc_macro2::TokenStream>().ok()?;
    Some(
        tokens.into_iter().map(|token| match syn::parse2::<Meta>(token.into()) {
            Ok(Meta::Path(path)) => Some(path.get_ident().map(|ident| ident.to_string())),
            _ => None,
        }).collect(),
    )
}

/// The member that one member of a parsed trait amounts to. What is no method
/// is kept as such. A method whose signature cannot be delegated is an error
/// that names the trait and the method.
pub open spec fn member_in(interface: Seq<char>, member: Option<Seq<char>>) -> Result<
    MemberView,
    DelegationErrorView,
> {
    match member {
        None => Ok(MemberView::Other),
        Some(text) => match declared_signature(text) {
            Some(sig) => Ok(MemberView::Method(sig)),
            None => Err(
                DelegationErrorView::UnsupportedSignature {
                    interface,
                    method: method_label(text),
                },
            ),
        },
    }
}

/// The members that the members of a parsed trait amount to, in order, or the
/// error of the first that is one.
pub open spec fn members_in(interface: Seq<char>, members: Seq<Option<Seq<char>>>) -> Result<
    Seq<MemberView>,
    DelegationErrorView,
>
    decreases members.len(),
{
    if members.len() == 0 {
        Ok(Seq::empty())
    } else {
        match members_in(interface, members.drop_last()) {
            Err(error) => Err(error),
            Ok(front) => match member_in(interface, members.last()) {
                Err(error) => Err(error),
                Ok(member) => Ok(front.push(member)),
            },
        }
    }
}

/// The declaration that the parts of a parsed trait amount to. A trait with
/// generic parameters is refused.
pub open spec fn interface_in(parts: (Seq<char>, usize, Seq<Option<Seq<char>>>)) -> Result<
    InterfaceDeclarationView,
    DelegationErrorView,
> {
    if parts.1 != 0 {
        Err(DelegationErrorView::MalformedDeclaration)
    } else {
        match members_in(parts.0, parts.2) {
            Err(error) => Err(error),
            Ok(members) => Ok(InterfaceDeclarationView { name: parts.0, members }),
        }
    }
}

/// The interface that a source text declares.
pub open spec fn declared_interface(text: Seq<char>) -> Result<
    InterfaceDeclarationView,
    DelegationErrorView,
> {
    match trait_source(text) {
        None => Err(DelegationErrorView::MalformedDeclaration),
        Some(parts) => interface_in(parts),
    }
}

/// The sum type that the parts of a parsed enum amount to. An enum with
/// generic parameters is refused.
pub open spec fn sum_type_in(parts: (Seq<char>, usize, Seq<(Seq<char>, Seq<Seq<char>>)>)) -> Result<
    SumTypeView,
    DelegationErrorView,
> {
    if parts.1 != 0 {
        Err(DelegationErrorView::MalformedDeclaration)
    } else {
        Ok(
            SumTypeView {
                name: parts.0,
                variants: Seq::new(
                    parts.2.len(),
                    |i: int| VariantView { tag: parts.2[i].0, wrapped: parts.2[i].1 },
                ),
            },
        )
    }
}

/// The sum type that a source text declares.
pub open spec fn declared_sum_type(text: Seq<char>) -> Result<SumTypeView, DelegationErrorView> {
    match enum_source(text) {
        None => Err(DelegationErrorView::MalformedDeclaration),
        Some(parts) => sum_type_in(parts),
    }
}

/// The names among the tokens of an argument list, in order. Tokens that are
/// no paths are passed over; a path that is more than one identifier is
/// refused.
pub open spec fn names_in(paths: Seq<Option<Option<Seq<char>>>>) -> Result<
    Seq<Seq<char>>,
    DelegationErrorView,
>
    decreases paths.len(),
{
    if paths.len() == 0 {
        Ok(Seq::empty())
    } else {
        match names_in(paths.drop_last()) {
            Err(error) => Err(error),
            Ok(front) => match paths.last() {
                None => Ok(front),
                Some(None) => Err(DelegationErrorView::MalformedDeclaration),
                Some(Some(name)) => Ok(front.push(name)),
            },
        }
    }
}

/// The interface names that the text of an argument list holds.
pub open spec fn declared_names(text: Seq<char>) -> Result<Seq<Seq<char>>, DelegationErrorView> {
    match path_list_source(text) {
        None => Err(DelegationErrorView::MalformedDeclaration),
        Some(paths) => names_in(paths),
    }
}

/// A failure on the first `n` members is the failure on all of them.
proof fn lemma_members_in_fails_on(
    interface: Seq<char>,
    members: Seq<Option<Seq<char>>>,
    n: int,
)
    requires
        0 <= n <= members.len(),
        members_in(interface, members.take(n)) is Err,
    ensures
        members_in(interface, members) == members_in(interface, members.take(n)),
    decreases members.len() - n,
{
    if n < members.len() {
        assert(members.take(n + 1).drop_last() =~= members.take(n));
        lemma_members_in_fails_on(interface, members, n + 1);
    } else {
        assert(members.take(n) =~= members);
    }
}

/// A failure on the first `n` tokens is the failure on all of them.
proof fn lemma_names_in_fails_on(paths: Seq<Option<Option<Seq<char>>>>, n: int)
    requires
        0 <= n <= paths.len(),
        names_in(paths.take(n)) is Err,
    ensures
        names_in(paths) == names_in(paths.take(n)),
    decreases paths.len() - n,
{
    if n < paths.len() {
        assert(paths.take(n + 1).drop_last() =~= paths.take(n));
        lemma_names_in_fails_on(paths, n + 1);
    } else {
        assert(paths.take(n) =~= paths);
    }
}

/// Builds one member of a declaration from one member of a parsed trait.
pub fn member_from_source(interface: &str, member: &Option<String>) -> (built: Result<
    Member,
    DelegationError,
>)
    ensures
        match built {
            Ok(member_built) => member_in(interface@, member.deep_view()) == Ok::<
                _,
                DelegationErrorView,
            >(member_built@),
            Err(error) => member_in(interface@, member.deep_view()) == Err::<MemberView, _>(
                error@,
            ),
        },
{
    let text = match member {
        None => {
            return Ok(Member::Other);
        },
        Some(text) => text,
    };
    let method = match signature_parts(text.as_str()) {
        Some(source) => match signature_from_source(&source) {
            Some(sig) => {
                return Ok(Member::Method(sig));
            },
            None => source.0,
        },
        None => text.clone(),
    };
    Err(DelegationError::UnsupportedSignature { interface: interface.to_owned(), method })
}

/// Builds a declaration from the parts of a parsed trait.
pub fn interface_from_source(parts: &(String, usize, Vec<Option<String>>)) -> (built: Result<
    InterfaceDeclaration,
    DelegationError,
>)
    ensures
        match built {
            Ok(declaration) => interface_in(parts.deep_view()) == Ok::<_, DelegationErrorView>(
                declaration@,
            ),
            Err(error) => interface_in(parts.deep_view()) == Err::<InterfaceDeclarationView, _>(
                error@,
            ),
        },
{
    if parts.1 != 0 {
        return Err(DelegationError::MalformedDeclaration);
    }
    let ghost name = parts.deep_view().0;
    let ghost all = parts.deep_view().2;
    let mut members: Vec<Member> = Vec::new();
    let mut i: usize = 0;
    assert(all.take(0) =~= Seq::empty());
    assert(members.deep_view() =~= Seq::empty());
    while i < parts.2.len()
        invariant
            i <= parts.2.len(),
            parts.1 == 0,
            name == parts.0@,
            all == parts.deep_view().2,
            all.len() == parts.2.len(),
            members_in(name, all.take(i as int)) == Ok::<_, DelegationErrorView>(
                members.deep_view(),
            ),
        decreases parts.2.len() - i,
    {
        let ghost before = members;
        proof {
            lemma_deep_view_index(parts.2, i as int);
            assert(all.take(i + 1).drop_last() =~= all.take(i as int));
            assert(all.take(i + 1).last() == all[i as int]);
        }
        match member_from_source(parts.0.as_str(), &parts.2[i]) {
            Ok(member) => {
                members.push(member);
                proof {
                    lemma_deep_view_push(before, members, member);
                }
            },
            Err(error) => {
                proof {
                    lemma_members_in_fails_on(name, all, i + 1);
                }
                return Err(error);
            },
        }
        i += 1;
    }
    assert(all.take(i as int) =~= all);
    Ok(InterfaceDeclaration { name: parts.0.clone(), members })
}

/// Builds a sum type from the parts of a parsed enum.
pub fn sum_type_from_source(parts: &(String, usize, Vec<(String, Vec<String>)>)) -> (built: Result<
    SumTypeDescriptor,
    DelegationError,
>)
    ensures
        match built {
            Ok(target) => sum_type_in(parts.deep_view()) == Ok::<_, DelegationErrorView>(target@),
            Err(error) => sum_type_in(parts.deep_view()) == Err::<SumTypeView, _>(error@),
        },
{
    if parts.1 != 0 {
        return Err(DelegationError::MalformedDeclaration);
    }
    let ghost wanted = sum_type_in(parts.deep_view())->Ok_0.variants;
    let mut variants: Vec<VariantDescriptor> = Vec::new();
    let mut i: usize = 0;
    assert(variants.deep_view() =~= wanted.take(0));
    while i < parts.2.len()
        invariant
            i <= parts.2.len(),
            parts.1 == 0,
            wanted == sum_type_in(parts.deep_view())->Ok_0.variants,
            wanted.len() == parts.2.len(),
            variants.deep_view() == wanted.take(i as int),
        decreases parts.2.len() - i,
    {
        let ghost before = variants;
        let variant = VariantDescriptor {
            tag: parts.2[i].0.clone(),
            wrapped: copy_texts(&parts.2[i].1),
        };
        variants.push(variant);
        proof {
            lemma_deep_view_push(before, variants, variant);
            lemma_deep_view_index(parts.2, i as int);
            lemma_take_push(wanted, i as int);
        }
        i += 1;
    }
    assert(wanted.take(i as int) =~= wanted);
    Ok(SumTypeDescriptor { name: parts.0.clone(), variants })
}

/// Picks the interface names out of the tokens of an argument list.
pub fn names_from_source(paths: &Vec<Option<Option<String>>>) -> (built: Result<
    Vec<String>,
    DelegationError,
>)
    ensures
        match built {
            Ok(names) => names_in(paths.deep_view()) == Ok::<_, DelegationErrorView>(
                names.deep_view(),
            ),
            Err(error) => names_in(paths.deep_view()) == Err::<Seq<Seq<char>>, _>(error@),
        },
{
    let ghost all = paths.deep_view();
    let mut names: Vec<String> = Vec::new();
    let mut i: usize = 0;
    assert(all.take(0) =~= Seq::empty());
    assert(names.deep_view() =~= Seq::empty());
    while i < paths.len()
        invariant
            i <= paths.len(),
            all == paths.deep_view(),
            all.len() == paths.len(),
            names_in(all.take(i as int)) == Ok::<_, DelegationErrorView>(names.deep_view()),
        decreases paths.len() - i,
    {
        let ghost before = names;
        proof {
            lemma_deep_view_index(*paths, i as int);
            assert(all.take(i + 1).drop_last() =~= all.take(i as int));
            assert(all.take(i + 1).last() == all[i as int]);
        }
        match &paths[i] {
            None => {},
            Some(None) => {
                proof {
                    lemma_names_in_fails_on(all, i + 1);
                }
                return Err(DelegationError::MalformedDeclaration);
            },
            Some(Some(name)) => {
                let copy = name.clone();
                names.push(copy);
                proof {
                    lemma_deep_view_push(before, names, copy);
                }
            },
        }
        i += 1;
    }
    assert(all.take(i as int) =~= all);
    Ok(names)
}

/// Reads an interface declaration from the source text of a trait.
pub fn parse_interface(text: &str) -> (built: Result<InterfaceDeclaration, DelegationError>)
    ensures
        match built {
            Ok(declaration) => declared_interface(text@) == Ok::<_, DelegationErrorView>(
                declaration@,
            ),
            Err(error) => declared_interface(text@) == Err::<InterfaceDeclarationView, _>(
                error@,
            ),
        },
{
    match read_trait(text) {
        Some(parts) => interface_from_source(&parts),
        None => Err(DelegationError::MalformedDeclaration),
    }
}

/// Reads a sum type from the source text of an enum.
pub fn parse_sum_type(text: &str) -> (built: Result<SumTypeDescriptor, DelegationError>)
    ensures
        match built {
            Ok(target) => declared_sum_type(text@) == Ok::<_, DelegationErrorView>(target@),
            Err(error) => declared_sum_type(text@) == Err::<SumTypeView, _>(error@),
        },
{
    match read_enum(text) {
        Some(parts) => sum_type_from_source(&parts),
        None => Err(DelegationError::MalformedDeclaration),
    }
}

/// Reads the interface names from the source text of an argument list.
pub fn parse_interface_names(text: &str) -> (built: Result<Vec<String>, DelegationError>)
    ensures
        match built {
            Ok(names) => declared_names(text@) == Ok::<_, DelegationErrorView>(
                names.deep_view(),
            ),
            Err(error) => declared_names(text@) == Err::<Seq<Seq<char>>, _>(error@),
        },
{
    match read_path_list(text) {
        Some(paths) => names_from_source(&paths),
        None => Err(DelegationError::MalformedDeclaration),
    }
}

} // verus!
