//! The ways in which capture and generation fail.

use vstd::prelude::*;
use vstd::string::*;

verus! {

/// Why a declaration could not be captured or an implementation generated.
/// Every failure is final: nothing is emitted for the request that met it.
#[derive(Debug, PartialEq, Eq)]
pub enum DelegationError {
    /// The request names an interface that the registry does not hold.
    UnknownInterface { interface: String },
    /// A stored signature of the interface cannot be read back.
    MalformedSignature { interface: String, method: String },
    /// A variant of the sum type does not wrap exactly one value.
    MalformedVariant { target: String, variant: String },
    /// The source text is not a declaration of the kind asked for.
    MalformedDeclaration,
    /// A method of the trait has a signature that cannot be delegated: it does
    /// not take `self`, `&self` or `&mut self` first, or it holds more than a
    /// name, inputs and a return type.
    UnsupportedSignature { interface: String, method: String },
}

/// The mathematical value of a [`DelegationError`].
pub enum DelegationErrorView {
    UnknownInterface { interface: Seq<char> },
    MalformedSignature { interface: Seq<char>, method: Seq<char> },
    MalformedVariant { target: Seq<char>, variant: Seq<char> },
    MalformedDeclaration,
    UnsupportedSignature { interface: Seq<char>, method: Seq<char> },
}

impl View for DelegationError {
    type V = DelegationErrorView;

    open spec fn view(&self) -> DelegationErrorView {
        match self {
            DelegationError::UnknownInterface { interface } => {
                DelegationErrorView::UnknownInterface { interface: interface@ }
            },
            DelegationError::MalformedSignature {
                interface,
                method,
            } => DelegationErrorView::MalformedSignature { interface: interface@, method: method@ },
            DelegationError::MalformedVariant {
                target,
                variant,
            } => DelegationErrorView::MalformedVariant { target: target@, variant: variant@ },
            DelegationError::MalformedDeclaration => DelegationErrorView::MalformedDeclaration,
            DelegationError::UnsupportedSignature { interface, method } => {
                DelegationErrorView::UnsupportedSignature { interface: interface@, method: method@ }
            },
        }
    }
}

impl DeepView for DelegationError {
    type V = DelegationErrorView;

    open spec fn deep_view(&self) -> DelegationErrorView {
        self@
    }
}

/// The diagnostic for an error: it names the interface, the method or the
/// variant at fault.
pub open spec fn message_of(error: DelegationErrorView) -> Seq<char> {
    match error {
        DelegationErrorView::UnknownInterface { interface } => "Trait "@ + interface
            + " not found in lookup table"@,
        DelegationErrorView::MalformedSignature { interface, method } => "Method "@ + method
            + " of trait "@ + interface + " has a signature that cannot be read back"@,
        DelegationErrorView::MalformedVariant { target, variant } => "Variant "@ + variant
            + " of enum "@ + target + " does not wrap exactly one value"@,
        DelegationErrorView::MalformedDeclaration =>
            "The item is not a declaration that can be delegated"@,
        DelegationErrorView::UnsupportedSignature { interface, method } => "Method "@ + method
            + " of trait "@ + interface + " has a signature that cannot be delegated"@,
    }
}

impl DelegationError {
    /// The diagnostic to abort the build with.
    pub fn message(&self) -> (text: String)
        ensures
            text@ == message_of(self@),
    {
        match self {
            DelegationError::UnknownInterface { interface } => {
                let mut text = "Trait ".to_owned();
                text.append(interface.as_str());
                text.append(" not found in lookup table");
                text
            },
            DelegationError::MalformedSignature { interface, method } => {
                let mut text = "Method ".to_owned();
                text.append(method.as_str());
                text.append(" of trait ");
                text.append(interface.as_str());
                text.append(" has a signature that cannot be read back");
                text
            },
            DelegationError::MalformedVariant { target, variant } => {
                let mut text = "Variant ".to_owned();
                text.append(variant.as_str());
                text.append(" of enum ");
                text.append(target.as_str());
                text.append(" does not wrap exactly one value");
                text
            },
            DelegationError::MalformedDeclaration => {
                "The item is not a declaration that can be delegated".to_owned()
            },
            DelegationError::UnsupportedSignature { interface, method } => {
                let mut text = "Method ".to_owned();
                text.append(method.as_str());
                text.append(" of trait ");
                text.append(interface.as_str());
                text.append(" has a signature that cannot be delegated");
                text
            },
        }
    }
}

} // verus!
