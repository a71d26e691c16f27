//! Decoding of a compact string into extension tokens, driven by an ordered
//! pool of caller-supplied capabilities.
//!
//! A capability reports one of three shapes (a tag, a prefix with a run, or
//! a tag that stands for several tokens) and the decoder does the rest:
//! [`parse_one`] matches one capability at the start of the input,
//! [`parse_one_from_many`] finds the first capability of a pool that matches,
//! and [`parse`] decodes a whole input, using the capabilities of the pool in
//! order and each at most once.
//!
//! The two primitive recognisers come from `nom` and are trusted; all the
//! logic above them is verified against the mathematical description of the
//! decoder given by `match_one`, `search_pool` and `decode`.

pub mod decode;
pub mod matcher;
pub mod scan;
pub mod search;
pub mod shape;

pub use decode::{parse, ParseFailure};
pub use matcher::{parse_one, NoMatch};
pub use search::{parse_one_from_many, Unrecognized};
pub use shape::{Extension, ExtensionShape, IntoExtensionShape};
