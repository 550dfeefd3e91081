//! A minimalist codec for deterministic binary encodings.
//!
//! Values are written as fixed-width big-endian integers, single tag bytes and
//! plain concatenation: the bytes of a value are exactly what the structure of
//! its type dictates, so that equal values always give equal bytes.
//!
//! [`Encode`] and [`Decode`] are stated over the logical value of a type (its
//! `deep_view`): `Encode::encoding` is the canonical byte string of a value and
//! `Decode::parse` is what a decoder makes of a byte string. [`Terminated`]
//! ties the two together for the types whose decoder stops at the last byte
//! of the value it reads.
//!
//! The traits are implemented for the integers, `bool`, `()`, `Option`,
//! tuples of up to seven fields, arrays, `Box`, `Vec` and, for encoding,
//! slices. [`tag`] holds what an implementation for an enum needs, and
//! [`derive`] the rules that an implementation for a struct or an enum
//! follows.

pub mod array;
pub mod boolean;
pub mod boxed;
pub mod codec;
pub mod derive;
pub mod error;
pub mod integer;
pub mod option;
pub mod sequence;
pub mod signed;
pub mod tag;
pub mod tuple;
pub mod unit;
pub mod unsigned;

pub use codec::{Decode, Encode, Terminated};
pub use error::Error;
// What the traits are stated over, for those who implement them.
pub use vstd::seq::Seq;
pub use vstd::view::DeepView;
