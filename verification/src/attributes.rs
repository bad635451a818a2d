//! The two attributes, as functions from source text to source text.
//!
//! `define_delegator` stands on a trait and captures it. `define_delegation`
//! stands on an enum, names traits that were captured, and adds to the enum
//! one implementation block for each of them.

use crate::error::{DelegationError, DelegationErrorView};
use crate::generator::{generate, generated};
use crate::interface::{capture, captured};
use crate::registry::Registry;
use crate::render::{render, rendered_blocks};
use crate::sum_type::{DelegationRequest, DelegationRequestView};
use crate::syntax::{
    declared_interface, declared_names, declared_sum_type, parse_interface,
    parse_interface_names, parse_sum_type,
};
use vstd::prelude::*;
use vstd::string::*;

verus! {

/// What `define_delegation` gives for the arguments `attr` on the enum `item`:
/// the enum as it stands, and after it the blocks that generation gives for
/// the enum and the names among the arguments. The enum is read first, then
/// the arguments; the first failure is the result.
pub open spec fn delegation_output(
    table: Map<Seq<char>, Seq<Seq<char>>>,
    attr: Seq<char>,
    item: Seq<char>,
) -> Result<Seq<char>, DelegationErrorView> {
    match declared_sum_type(item) {
        Err(error) => Err(error),
        Ok(target) => match declared_names(attr) {
            Err(error) => Err(error),
            Ok(interfaces) => match generated(
                table,
                DelegationRequestView { target, interfaces },
            ) {
                Err(error) => Err(error),
                Ok(blocks) => Ok(item + "\n"@ + rendered_blocks(blocks)),
            },
        },
    }
}

/// Captures the trait that `item` declares: its methods are stored in the
/// registry under its name, and the trait is handed back as it stands. Where
/// `item` is no trait that can be delegated, the registry is left as it was.
/// The arguments of the attribute are not looked at.
pub fn define_delegator(registry: &mut Registry, _attr: &str, item: &str) -> (output: Result<
    String,
    DelegationError,
>)
    ensures
        match declared_interface(item@) {
            Ok(declaration) => {
                &&& output is Ok
                &&& output->Ok_0@ == item@
                &&& final(registry)@ == old(registry)@.insert(
                    declaration.name,
                    captured(declaration.members),
                )
            },
            Err(error) => {
                &&& output is Err
                &&& output->Err_0@ == error
                &&& final(registry)@ == old(registry)@
            },
        },
{
    match parse_interface(item) {
        Ok(declaration) => {
            capture(registry, &declaration);
            Ok(item.to_owned())
        },
        Err(error) => Err(error),
    }
}

/// Applies the traits that `attr` names to the enum that `item` declares: the
/// output is the enum as it stands, followed by one implementation block per
/// trait, in the order of the names. Fails, with no output, where `item` is no
/// enum that can be delegated to, where a name was never captured, or where a
/// stored signature cannot be read back.
pub fn define_delegation(registry: &Registry, attr: &str, item: &str) -> (output: Result<
    String,
    DelegationError,
>)
    ensures
        match output {
            Ok(text) => delegation_output(registry@, attr@, item@) == Ok::<_, DelegationErrorView>(
                text@,
            ),
            Err(error) => delegation_output(registry@, attr@, item@) == Err::<Seq<char>, _>(
                error@,
            ),
        },
{
    let target = match parse_sum_type(item) {
        Ok(target) => target,
        Err(error) => {
            return Err(error);
        },
    };
    let interfaces = match parse_interface_names(attr) {
        Ok(interfaces) => interfaces,
        Err(error) => {
            return Err(error);
        },
    };
    let request = DelegationRequest { target, interfaces };
    match generate(registry, &request) {
        Ok(blocks) => {
            let mut text = item.to_owned();
            text.append("\n");
            text.append(render(&blocks).as_str());
            Ok(text)
        },
        Err(error) => Err(error),
    }
}

} // verus!
