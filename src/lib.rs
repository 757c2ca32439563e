//! A parser for JTL, a line-oriented markup: a `DOCTYPE=JTL` first line, an optional
//! `>>>ENV;` section of `>>>name=value;` bindings, and a `>>>BEGIN;` ... `>>>END;` body of
//! element declarations `>attr="val" ...>id>content;`, each of which becomes a record.
use vstd::prelude::*;

pub mod document;
pub mod json;
pub mod laws;
pub mod pattern;
pub mod strmap;
pub mod text;

pub use crate::document::parse;
pub use crate::document::parse_env;
pub use crate::document::ParseError;
pub use crate::strmap::StrMap;

verus! {

} // verus!
