//! Dual-syntax declarations for the symbols of a platform API registry.
//!
//! The library indexes an already parsed registry (`registry`), resolves
//! command aliases, derives target-syntax identifiers for enumeration
//! variants and type names (`naming`), renders each kind of symbol as a
//! block holding its source declaration beside its target-syntax
//! declaration (`render`), and replaces the generation markers of a
//! documentation page by those blocks (`document`). Apart from the small
//! wrappers around heck's and std's case conversions and `String::push`,
//! every executable function is verified against the contract it states.
use vstd::prelude::*;

pub mod text;
pub mod naming;
pub mod membership;
pub mod table;
pub mod registry;
pub mod hex;
pub mod render;
pub mod document;

pub use naming::variant_ident;

verus! {

} // verus!
