//! Interface delegation for sum types.
//!
//! An interface is a named, ordered list of method signatures. A sum type is a
//! list of variants, each of which wraps one value. For every interface that a
//! sum type asks for, the generator emits an implementation block in which each
//! method dispatches over the variants and forwards the call to the wrapped
//! value.
//!
//! The work is done in two phases. Capture stores the signatures of an
//! interface, in a transport form, in a [`Registry`]. Generation looks the
//! interfaces up by name, reads the signatures back and emits the blocks.
//!
//! - [`signature`], [`interface`], [`sum_type`]: the declarations as values.
//! - [`lines`], [`transport`]: the text in which a signature is stored.
//! - [`registry`]: what was captured, by name.
//! - [`binder`], [`generator`], [`render`]: the blocks, and their source text.
//! - [`syntax`]: declarations read from source text.
//! - [`attributes`]: capture and generation from source text to source text.
//! - [`laws`]: what holds of every capture and every generation.

pub mod attributes;
pub mod binder;
pub mod error;
pub mod generator;
pub mod interface;
pub mod laws;
pub mod lines;
pub mod registry;
pub mod render;
pub mod signature;
pub mod sum_type;
pub mod syntax;
pub mod transport;
pub mod views;

pub use attributes::{define_delegation, define_delegator};
pub use error::DelegationError;
pub use generator::{forward, generate, implement, Arm, ForwardingMethod, ImplBlock};
pub use interface::{capture, describe, InterfaceDeclaration, InterfaceDescriptor, Member};
pub use registry::Registry;
pub use render::render;
pub use signature::{MethodSignature, Param, Receiver};
pub use sum_type::{DelegationRequest, SumTypeDescriptor, VariantDescriptor};
pub use syntax::{parse_interface, parse_interface_names, parse_signature, parse_sum_type};
pub use transport::{decode_signature, encode_signature};
