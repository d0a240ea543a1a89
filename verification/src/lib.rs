//! An immutable, reference-counted string of UTF-16 code units, with the borrowed views and
//! the content algorithms that a JavaScript engine needs of its string type.
//!
//! A [`JsString`] owns its code units; a [`JsStr`] views the code units of an owned string in
//! the storage that holds them; a [`JsStringSlice`] views code units of any source, and is what
//! new strings are built from. Every contract is stated over the code units of a string, a
//! `Seq<u16>`, which is the view of all three.

pub mod builder;
pub mod common;
pub mod compare;
pub mod construct;
pub mod decode;
pub mod equality;
pub mod index;
pub mod interner;
pub mod iter;
pub mod js_slice;
pub mod js_str;
pub mod js_string;
pub mod number;
pub mod order;
pub mod search;
pub mod unicode;
pub mod whitespace;

pub use crate::common::StaticJsStrings;
pub use crate::decode::FromUtf16Error;
pub use crate::index::JsSliceIndex;
pub use crate::iter::Iter;
pub use crate::js_slice::{JsStringSlice, JsStringSliceVariant};
pub use crate::js_str::{JsStr, JsStrVariant};
pub use crate::js_string::JsString;
pub use crate::number::NumericLiteral;
pub use crate::unicode::CodePoint;
