//! Method signatures: the unit that capture stores and generation reads back.

use crate::views::{lemma_deep_view_index, lemma_deep_view_push, lemma_take_push};
use vstd::prelude::*;

verus! {

/// How a method takes the value it is called on.
#[derive(Clone, Copy, Debug, PartialEq, Eq, Structural)]
pub enum Receiver {
    /// `self`
    Value,
    /// `&self`
    Ref,
    /// `&mut self`
    RefMut,
}

/// One parameter of a method, the receiver excluded.
#[derive(Debug, PartialEq, Eq)]
pub struct Param {
    pub name: String,
    pub ty: String,
}

/// The mathematical value of a [`Param`].
pub struct ParamView {
    pub name: Seq<char>,
    pub ty: Seq<char>,
}

impl View for Param {
    type V = ParamView;

    open spec fn view(&self) -> ParamView {
        ParamView { name: self.name@, ty: self.ty@ }
    }
}

impl DeepView for Param {
    type V = ParamView;

    open spec fn deep_view(&self) -> ParamView {
        self@
    }
}

impl Param {
    /// A copy of this parameter.
    pub fn duplicate(&self) -> (copy: Param)
        ensures
            copy@ == self@,
    {
        Param { name: self.name.clone(), ty: self.ty.clone() }
    }
}

/// One method of an interface: its name, how it takes the receiver, its other
/// parameters in order, and its return type where it names one.
#[derive(Debug, PartialEq, Eq)]
pub struct MethodSignature {
    pub name: String,
    pub receiver: Receiver,
    pub params: Vec<Param>,
    pub ret: Option<String>,
}

/// The mathematical value of a [`MethodSignature`].
pub struct MethodSignatureView {
    pub name: Seq<char>,
    pub receiver: Receiver,
    pub params: Seq<ParamView>,
    pub ret: Option<Seq<char>>,
}

impl View for MethodSignature {
    type V = MethodSignatureView;

    open spec fn view(&self) -> MethodSignatureView {
        MethodSignatureView {
            name: self.name@,
            receiver: self.receiver,
            params: self.params.deep_view(),
            ret: self.ret.deep_view(),
        }
    }
}

impl DeepView for MethodSignature {
    type V = MethodSignatureView;

    open spec fn deep_view(&self) -> MethodSignatureView {
        self@
    }
}

/// The names of a signature's parameters, in order: the argument list of a
/// call that hands every parameter on.
pub open spec fn param_names(sig: MethodSignatureView) -> Seq<Seq<char>> {
    Seq::new(sig.params.len(), |i: int| sig.params[i].name)
}

impl MethodSignature {
    /// The names of the parameters, in order.
    pub fn argument_names(&self) -> (names: Vec<String>)
        ensures
            names.deep_view() == param_names(self@),
    {
        let ghost wanted = param_names(self@);
        let mut names: Vec<String> = Vec::new();
        let mut i: usize = 0;
        assert(names.deep_view() =~= wanted.take(0));
        while i < self.params.len()
            invariant
                i <= self.params.len(),
                wanted == param_names(self@),
                wanted.len() == self.params.len(),
                names.deep_view() == wanted.take(i as int),
            decreases self.params.len() - i,
        {
            let ghost before = names;
            let name = self.params[i].name.clone();
            names.push(name);
            proof {
                lemma_deep_view_push(before, names, name);
                lemma_deep_view_index(self.params, i as int);
                lemma_take_push(wanted, i as int);
            }
            i += 1;
        }
        assert(wanted.take(i as int) =~= wanted);
        names
    }

    /// A copy of this signature.
    pub fn duplicate(&self) -> (copy: MethodSignature)
        ensures
            copy@ == self@,
    {
        let ghost wanted = self.params.deep_view();
        let mut params: Vec<Param> = Vec::new();
        let mut i: usize = 0;
        assert(params.deep_view() =~= wanted.take(0));
        while i < self.params.len()
            invariant
                i <= self.params.len(),
                wanted == self.params.deep_view(),
                wanted.len() == self.params.len(),
                params.deep_view() == wanted.take(i as int),
            decreases self.params.len() - i,
        {
            let ghost before = params;
            let param = self.params[i].duplicate();
            params.push(param);
            proof {
                lemma_deep_view_push(before, params, param);
                lemma_deep_view_index(self.params, i as int);
                lemma_take_push(wanted, i as int);
            }
            i += 1;
        }
        assert(wanted.take(i as int) =~= wanted);
        let ret = match &self.ret {
            Some(r) => Some(r.clone()),
            None => None,
        };
        MethodSignature { name: self.name.clone(), receiver: self.receiver, params, ret }
    }
}

} // verus!
