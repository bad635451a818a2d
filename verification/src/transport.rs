//! The transport form of a signature.
//!
//! Capture and generation run at different times, so a signature travels
//! between them as text. The text holds one field per line: the method's name,
//! its receiver, then the name and the type of each parameter, and last the
//! return type where there is one. Every signature has a transport form, and
//! reading it back gives the signature again.

use crate::lines::{
    escaped, escaped_all, join_escaped, joined, lemma_escaped_has_no_line_feed,
    lemma_split_joined, lemma_split_lines, lemma_unescaped_escaped, same_text, split,
    split_lines, unescape, unescape_all, unescaped, unescaped_all,
};
use crate::signature::{MethodSignature, MethodSignatureView, Param, ParamView, Receiver};
use crate::views::{lemma_deep_view_index, lemma_deep_view_push, lemma_take_push};
use vstd::prelude::*;

verus! {

/// How a receiver is written in its field.
pub open spec fn receiver_text(receiver: Receiver) -> Seq<char> {
    match receiver {
        Receiver::Value => "self"@,
        Receiver::Ref => "&self"@,
        Receiver::RefMut => "&mut self"@,
    }
}

/// The receiver that a field stands for, where it stands for one.
pub open spec fn receiver_of(field: Seq<char>) -> Option<Receiver> {
    if field == "self"@ {
        Some(Receiver::Value)
    } else if field == "&self"@ {
        Some(Receiver::Ref)
    } else if field == "&mut self"@ {
        Some(Receiver::RefMut)
    } else {
        None
    }
}

/// The parameters as fields: each name, followed by its type.
pub open spec fn flattened(params: Seq<ParamView>) -> Seq<Seq<char>> {
    Seq::new(
        2 * params.len(),
        |j: int|
            if j % 2 == 0 {
                params[j / 2].name
            } else {
                params[j / 2].ty
            },
    )
}

/// The fields of a signature: name, receiver, parameters, and the return type
/// where there is one.
pub open spec fn fields_of(sig: MethodSignatureView) -> Seq<Seq<char>> {
    seq![sig.name, receiver_text(sig.receiver)] + flattened(sig.params) + match sig.ret {
        Some(ret) => seq![ret],
        None => Seq::empty(),
    }
}

/// The signature that fields stand for. There must be a name and a receiver;
/// the fields after them are taken in pairs as parameters, and one that is left
/// over is the return type.
pub open spec fn signature_of(fields: Seq<Seq<char>>) -> Option<MethodSignatureView> {
    if fields.len() < 2 {
        None
    } else {
        match receiver_of(fields[1]) {
            None => None,
            Some(receiver) => Some(
                MethodSignatureView {
                    name: fields[0],
                    receiver,
                    params: Seq::new(
                        ((fields.len() - 2) / 2) as nat,
                        |i: int| ParamView { name: fields[2 + 2 * i], ty: fields[3 + 2 * i] },
                    ),
                    ret: if (fields.len() - 2) % 2 == 1 {
                        Some(fields.last())
                    } else {
                        None
                    },
                },
            ),
        }
    }
}

/// The transport form of a signature.
pub open spec fn encoded(sig: MethodSignatureView) -> Seq<char> {
    joined(escaped_all(fields_of(sig)))
}

/// The signature that a transport form stands for, where it stands for one.
pub open spec fn decoded(text: Seq<char>) -> Option<MethodSignatureView> {
    match unescaped_all(split(text)) {
        Some(fields) => signature_of(fields),
        None => None,
    }
}

/// The name of the method that a text is about, whether or not the text is a
/// transport form: the field of its first line, or the line itself where that
/// stands for no field.
pub open spec fn named_method(text: Seq<char>) -> Seq<char> {
    match unescaped(split(text)[0]) {
        Some(name) => name,
        None => split(text)[0],
    }
}

/// The three receivers are written differently, so the field of a receiver
/// stands for that receiver.
pub proof fn lemma_receiver_of_text(receiver: Receiver)
    ensures
        receiver_of(receiver_text(receiver)) == Some(receiver),
{
    reveal_strlit("self");
    reveal_strlit("&self");
    reveal_strlit("&mut self");
    assert("self"@.len() == 4);
    assert("&self"@.len() == 5);
    assert("&mut self"@.len() == 9);
}

/// The fields of a signature stand for that signature.
pub proof fn lemma_signature_of_fields(sig: MethodSignatureView)
    ensures
        signature_of(fields_of(sig)) == Some(sig),
{
    let fields = fields_of(sig);
    let got = signature_of(fields);
    lemma_receiver_of_text(sig.receiver);
    assert(fields[1] == receiver_text(sig.receiver));
    assert(got is Some);
    assert(got->0.params =~= sig.params) by {
        assert forall|i: int| 0 <= i < sig.params.len() implies got->0.params[i]
            == sig.params[i] by {
            assert(fields[2 + 2 * i] == flattened(sig.params)[2 * i]);
            assert(fields[3 + 2 * i] == flattened(sig.params)[2 * i + 1]);
        }
    }
}

/// Reading the transport form of a signature gives the signature again: its
/// name, its receiver, its parameters with their names and types in their
/// order, and its return type.
pub proof fn lemma_round_trip(sig: MethodSignatureView)
    ensures
        decoded(encoded(sig)) == Some(sig),
        named_method(encoded(sig)) == sig.name,
{
    let fields = fields_of(sig);
    let lines = escaped_all(fields);
    assert forall|i: int| 0 <= i < lines.len() implies !(#[trigger] lines[i]).contains('\n') by {
        lemma_escaped_has_no_line_feed(fields[i]);
    }
    lemma_split_joined(lines);
    assert forall|i: int| 0 <= i < lines.len() implies (#[trigger] unescaped(lines[i])) == Some(
        fields[i],
    ) by {
        lemma_unescaped_escaped(fields[i]);
    }
    assert(unescaped_all(lines)->0 =~= fields);
    lemma_signature_of_fields(sig);
}

/// The field of a receiver.
pub fn receiver_field(receiver: Receiver) -> (field: &'static str)
    ensures
        field@ == receiver_text(receiver),
{
    match receiver {
        Receiver::Value => "self",
        Receiver::Ref => "&self",
        Receiver::RefMut => "&mut self",
    }
}

/// Reads a field as a receiver.
pub fn read_receiver(field: &str) -> (receiver: Option<Receiver>)
    ensures
        receiver == receiver_of(field@),
{
    if same_text(field, "self") {
        Some(Receiver::Value)
    } else if same_text(field, "&self") {
        Some(Receiver::Ref)
    } else if same_text(field, "&mut self") {
        Some(Receiver::RefMut)
    } else {
        None
    }
}

/// The fields of a signature.
pub fn signature_fields(sig: &MethodSignature) -> (fields: Vec<String>)
    ensures
        fields.deep_view() == fields_of(sig@),
{
    let ghost head = seq![sig@.name, receiver_text(sig@.receiver)];
    let ghost flat = flattened(sig@.params);
    let mut fields: Vec<String> = Vec::new();
    fields.push(sig.name.clone());
    fields.push(receiver_field(sig.receiver).to_owned());
    let mut i: usize = 0;
    assert(fields.deep_view() =~= head + flat.take(0));
    while i < sig.params.len()
        invariant
            i <= sig.params.len(),
            flat == flattened(sig@.params),
            flat.len() == 2 * sig.params.len(),
            fields.deep_view() == head + flat.take(2 * i),
        decreases sig.params.len() - i,
    {
        let ghost before = fields;
        let name = sig.params[i].name.clone();
        let ty = sig.params[i].ty.clone();
        fields.push(name);
        let ghost between = fields;
        fields.push(ty);
        proof {
            lemma_deep_view_push(before, between, name);
            lemma_deep_view_push(between, fields, ty);
            lemma_deep_view_index(sig.params, i as int);
            assert(flat[2 * i] == name@);
            assert(flat[2 * i + 1] == ty@);
            assert(fields.deep_view() =~= head + flat.take(2 * (i + 1)));
        }
        i += 1;
    }
    assert(flat.take(2 * i) =~= flat);
    match &sig.ret {
        Some(ret) => {
            let ghost before = fields;
            let last = ret.clone();
            fields.push(last);
            proof {
                lemma_deep_view_push(before, fields, last);
                assert(fields.deep_view() =~= fields_of(sig@));
            }
        },
        None => {
            assert(fields.deep_view() =~= fields_of(sig@));
        },
    }
    fields
}

/// Reads fields as a signature; `None` where the name or the receiver is
/// missing, or the second field is no receiver.
pub fn signature_from_fields(fields: &Vec<String>) -> (sig: Option<MethodSignature>)
    ensures
        sig.deep_view() == signature_of(fields.deep_view()),
{
    let ghost all = fields.deep_view();
    if fields.len() < 2 {
        return None;
    }
    proof {
        lemma_deep_view_index(*fields, 0);
        lemma_deep_view_index(*fields, 1);
    }
    let receiver = match read_receiver(fields[1].as_str()) {
        Some(receiver) => receiver,
        None => {
            return None;
        },
    };
    let ghost wanted = signature_of(all)->0;
    let count: usize = (fields.len() - 2) / 2;
    let mut params: Vec<Param> = Vec::new();
    let mut i: usize = 0;
    assert(params.deep_view() =~= wanted.params.take(0));
    while i < count
        invariant
            i <= count,
            count == (fields.len() - 2) / 2,
            fields.len() >= 2,
            all == fields.deep_view(),
            signature_of(all) == Some(wanted),
            params.deep_view() == wanted.params.take(i as int),
        decreases count - i,
    {
        let ghost before = params;
        let param = Param { name: fields[2 + 2 * i].clone(), ty: fields[3 + 2 * i].clone() };
        params.push(param);
        proof {
            lemma_deep_view_push(before, params, param);
            lemma_deep_view_index(*fields, 2 + 2 * i);
            lemma_deep_view_index(*fields, 3 + 2 * i);
            lemma_take_push(wanted.params, i as int);
        }
        i += 1;
    }
    assert(wanted.params.take(i as int) =~= wanted.params);
    let ret = if (fields.len() - 2) % 2 == 1 {
        proof {
            lemma_deep_view_index(*fields, fields.len() - 1);
        }
        Some(fields[fields.len() - 1].clone())
    } else {
        None
    };
    Some(MethodSignature { name: fields[0].clone(), receiver, params, ret })
}

/// Puts a signature in its transport form.
pub fn encode_signature(sig: &MethodSignature) -> (text: String)
    ensures
        text@ == encoded(sig@),
{
    let fields = signature_fields(sig);
    join_escaped(&fields)
}

/// Reads a transport form back as a signature; `None` where the text is not the
/// transport form of any signature.
pub fn decode_signature(text: &str) -> (sig: Option<MethodSignature>)
    ensures
        sig.deep_view() == decoded(text@),
{
    let lines = split_lines(text);
    match unescape_all(&lines) {
        Some(fields) => signature_from_fields(&fields),
        None => None,
    }
}

/// The name of the method that a text is about.
pub fn method_name(text: &str) -> (name: String)
    ensures
        name@ == named_method(text@),
{
    let lines = split_lines(text);
    proof {
        lemma_split_lines(text@);
        lemma_deep_view_index(lines, 0);
    }
    match unescape(lines[0].as_str()) {
        Some(name) => name,
        None => lines[0].clone(),
    }
}

} // verus!
