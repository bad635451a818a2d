//! The generated blocks as source text.

use crate::generator::{
    Arm, ArmView, ForwardingMethod, ForwardingMethodView, ImplBlock, ImplBlockView,
};
use crate::signature::{MethodSignature, MethodSignatureView, ParamView};
use crate::transport::{receiver_field, receiver_text};
use crate::views::lemma_deep_view_index;
use vstd::prelude::*;
use vstd::string::*;

verus! {

/// The arguments of a call, with a comma between each two.
pub open spec fn rendered_arguments(arguments: Seq<Seq<char>>) -> Seq<char>
    decreases arguments.len(),
{
    if arguments.len() == 0 {
        Seq::empty()
    } else if arguments.len() == 1 {
        arguments[0]
    } else {
        rendered_arguments(arguments.drop_last()) + ", "@ + arguments.last()
    }
}

/// One arm of a dispatch: the pattern for the variant, and the call on the
/// value that it binds.
pub open spec fn rendered_arm(target: Seq<char>, arm: ArmView) -> Seq<char> {
    "            "@ + target + "::"@ + arm.variant + "("@ + arm.binder + ") => "@ + arm.binder
        + "."@ + arm.method + "("@ + rendered_arguments(arm.arguments) + "),\n"@
}

/// The arms of a dispatch, one after the other.
pub open spec fn rendered_arms(target: Seq<char>, arms: Seq<ArmView>) -> Seq<char>
    decreases arms.len(),
{
    if arms.len() == 0 {
        Seq::empty()
    } else {
        rendered_arms(target, arms.drop_last()) + rendered_arm(target, arms.last())
    }
}

/// The parameters after the receiver: each with a comma before it.
pub open spec fn rendered_params(params: Seq<ParamView>) -> Seq<char>
    decreases params.len(),
{
    if params.len() == 0 {
        Seq::empty()
    } else {
        rendered_params(params.drop_last()) + ", "@ + params.last().name + ": "@
            + params.last().ty
    }
}

/// The return type behind its arrow, where there is one.
pub open spec fn rendered_return(ret: Option<Seq<char>>) -> Seq<char> {
    match ret {
        Some(ty) => " -> "@ + ty,
        None => Seq::empty(),
    }
}

/// A signature as it is declared.
pub open spec fn rendered_signature(sig: MethodSignatureView) -> Seq<char> {
    "fn "@ + sig.name + "("@ + receiver_text(sig.receiver) + rendered_params(sig.params) + ")"@
        + rendered_return(sig.ret)
}

/// A method: its signature, and as its body the dispatch over `self`.
pub open spec fn rendered_method(target: Seq<char>, method: ForwardingMethodView) -> Seq<char> {
    "    "@ + rendered_signature(method.signature) + " {\n        match self {\n"@ + rendered_arms(
        target,
        method.arms,
    ) + "        }\n    }\n"@
}

/// The methods of a block, one after the other.
pub open spec fn rendered_methods(target: Seq<char>, methods: Seq<ForwardingMethodView>) -> Seq<
    char,
>
    decreases methods.len(),
{
    if methods.len() == 0 {
        Seq::empty()
    } else {
        rendered_methods(target, methods.drop_last()) + rendered_method(target, methods.last())
    }
}

/// A block: the header that says which interface is implemented for which sum
/// type, and the methods.
pub open spec fn rendered_block(block: ImplBlockView) -> Seq<char> {
    "impl "@ + block.interface + " for "@ + block.target + " {\n"@ + rendered_methods(
        block.target,
        block.methods,
    ) + "}\n"@
}

/// The blocks, one after the other.
pub open spec fn rendered_blocks(blocks: Seq<ImplBlockView>) -> Seq<char>
    decreases blocks.len(),
{
    if blocks.len() == 0 {
        Seq::empty()
    } else {
        rendered_blocks(blocks.drop_last()) + rendered_block(blocks.last())
    }
}

/// Appends the arguments of a call.
fn write_arguments(out: &mut String, arguments: &Vec<String>)
    ensures
        final(out)@ == old(out)@ + rendered_arguments(arguments.deep_view()),
{
    let ghost all = arguments.deep_view();
    let ghost start = out@;
    let mut i: usize = 0;
    assert(all.take(0) =~= Seq::empty());
    assert(start + Seq::<char>::empty() =~= start);
    while i < arguments.len()
        invariant
            i <= arguments.len(),
            all == arguments.deep_view(),
            all.len() == arguments.len(),
            out@ == start + rendered_arguments(all.take(i as int)),
        decreases arguments.len() - i,
    {
        let ghost before = out@;
        proof {
            lemma_deep_view_index(*arguments, i as int);
            assert(all.take(i + 1).drop_last() =~= all.take(i as int));
            assert(all.take(i + 1).last() == all[i as int]);
        }
        if i > 0 {
            out.append(", ");
        }
        out.append(arguments[i].as_str());
        proof {
            if i == 0 {
                assert(out@ =~= start + all[0]);
            } else {
                assert(out@ =~= start + (rendered_arguments(all.take(i as int)) + ", "@
                    + all[i as int]));
            }
        }
        i += 1;
    }
    assert(all.take(i as int) =~= all);
}

/// Appends one arm.
fn write_arm(out: &mut String, target: &str, arm: &Arm)
    ensures
        final(out)@ == old(out)@ + rendered_arm(target@, arm@),
{
    out.append("            ");
    out.append(target);
    out.append("::");
    out.append(arm.variant.as_str());
    out.append("(");
    out.append(arm.binder.as_str());
    out.append(") => ");
    out.append(arm.binder.as_str());
    out.append(".");
    out.append(arm.method.as_str());
    out.append("(");
    write_arguments(out, &arm.arguments);
    out.append("),\n");
    assert(out@ =~= old(out)@ + rendered_arm(target@, arm@));
}

/// Appends the signature of a method.
fn write_signature(out: &mut String, sig: &MethodSignature)
    ensures
        final(out)@ == old(out)@ + rendered_signature(sig@),
{
    out.append("fn ");
    out.append(sig.name.as_str());
    out.append("(");
    out.append(receiver_field(sig.receiver));
    let ghost start = out@;
    let ghost all = sig@.params;
    let mut i: usize = 0;
    assert(all.take(0) =~= Seq::empty());
    assert(start + Seq::<char>::empty() =~= start);
    while i < sig.params.len()
        invariant
            i <= sig.params.len(),
            all == sig@.params,
            all.len() == sig.params.len(),
            out@ == start + rendered_params(all.take(i as int)),
        decreases sig.params.len() - i,
    {
        proof {
            lemma_deep_view_index(sig.params, i as int);
            assert(all.take(i + 1).drop_last() =~= all.take(i as int));
            assert(all.take(i + 1).last() == all[i as int]);
        }
        out.append(", ");
        out.append(sig.params[i].name.as_str());
        out.append(": ");
        out.append(sig.params[i].ty.as_str());
        assert(out@ =~= start + (rendered_params(all.take(i as int)) + ", "@ + all[i as int].name
            + ": "@ + all[i as int].ty));
        i += 1;
    }
    assert(all.take(i as int) =~= all);
    out.append(")");
    match &sig.ret {
        Some(ty) => {
            out.append(" -> ");
            out.append(ty.as_str());
        },
        None => {},
    }
    assert(out@ =~= old(out)@ + rendered_signature(sig@));
}

/// Appends one method.
fn write_method(out: &mut String, target: &str, method: &ForwardingMethod)
    ensures
        final(out)@ == old(out)@ + rendered_method(target@, method@),
{
    out.append("    ");
    write_signature(out, &method.signature);
    out.append(" {\n        match self {\n");
    let ghost start = out@;
    let ghost all = method@.arms;
    let mut i: usize = 0;
    assert(all.take(0) =~= Seq::empty());
    assert(start + Seq::<char>::empty() =~= start);
    while i < method.arms.len()
        invariant
            i <= method.arms.len(),
            all == method@.arms,
            all.len() == method.arms.len(),
            out@ == start + rendered_arms(target@, all.take(i as int)),
        decreases method.arms.len() - i,
    {
        proof {
            lemma_deep_view_index(method.arms, i as int);
            assert(all.take(i + 1).drop_last() =~= all.take(i as int));
            assert(all.take(i + 1).last() == all[i as int]);
        }
        write_arm(out, target, &method.arms[i]);
        assert(out@ =~= start + (rendered_arms(target@, all.take(i as int)) + rendered_arm(
            target@,
            all[i as int],
        )));
        i += 1;
    }
    assert(all.take(i as int) =~= all);
    out.append("        }\n    }\n");
    assert(out@ =~= old(out)@ + rendered_method(target@, method@));
}

/// Appends one block.
fn write_block(out: &mut String, block: &ImplBlock)
    ensures
        final(out)@ == old(out)@ + rendered_block(block@),
{
    out.append("impl ");
    out.append(block.interface.as_str());
    out.append(" for ");
    out.append(block.target.as_str());
    out.append(" {\n");
    let ghost start = out@;
    let ghost all = block@.methods;
    let mut i: usize = 0;
    assert(all.take(0) =~= Seq::empty());
    assert(start + Seq::<char>::empty() =~= start);
    while i < block.methods.len()
        invariant
            i <= block.methods.len(),
            all == block@.methods,
            all.len() == block.methods.len(),
            out@ == start + rendered_methods(block@.target, all.take(i as int)),
        decreases block.methods.len() - i,
    {
        proof {
            lemma_deep_view_index(block.methods, i as int);
            assert(all.take(i + 1).drop_last() =~= all.take(i as int));
            assert(all.take(i + 1).last() == all[i as int]);
        }
        write_method(out, block.target.as_str(), &block.methods[i]);
        assert(out@ =~= start + (rendered_methods(block@.target, all.take(i as int))
            + rendered_method(block@.target, all[i as int])));
        i += 1;
    }
    assert(all.take(i as int) =~= all);
    out.append("}\n");
    assert(out@ =~= old(out)@ + rendered_block(block@));
}

/// The source text of the blocks, in their order.
pub fn render(blocks: &Vec<ImplBlock>) -> (text: String)
    ensures
        text@ == rendered_blocks(blocks.deep_view()),
{
    let ghost all = blocks.deep_view();
    let mut text = String::new();
    let mut i: usize = 0;
    assert(all.take(0) =~= Seq::empty());
    while i < blocks.len()
        invariant
            i <= blocks.len(),
            all == blocks.deep_view(),
            all.len() == blocks.len(),
            text@ == rendered_blocks(all.take(i as int)),
        decreases blocks.len() - i,
    {
        proof {
            lemma_deep_view_index(*blocks, i as int);
            assert(all.take(i + 1).drop_last() =~= all.take(i as int));
            assert(all.take(i + 1).last() == all[i as int]);
        }
        write_block(&mut text, &blocks[i]);
        i += 1;
    }
    assert(all.take(i as int) =~= all);
    text
}

} // verus!
