use vstd::prelude::*;

pub mod count;
pub mod parse;
pub mod plural;
pub mod rounding;

pub use parse::{parse_from_string, split_elements, Element, ElementKind, ParseError};
pub use plural::pluralize;
pub use rounding::{round_metal, Rounding};

verus! {

/// Number of scaled metal units in one refined metal: a refined is nine
/// scrap, and a scrap is two units, so that half a scrap can be held.
pub const ONE_REF: i32 = 18;

/// Number of scaled metal units in one scrap metal.
pub const ONE_SCRAP: i32 = 2;

/// The symbol of one key.
pub const KEY_SYMBOL: &'static str = "key";

/// The symbol of several keys.
pub const KEYS_SYMBOL: &'static str = "keys";

/// The symbol of refined metal.
pub const METAL_SYMBOL: &'static str = "ref";

/// Message for an element of the wrong shape or with an unknown symbol.
pub const INVALID_CURRENCIES_FORMAT: &'static str = "Invalid currencies format";

/// Message for a key count that is no integer.
pub const KEY_COUNT_ERROR: &'static str = "Error parsing key count";

/// Message for a metal count that is no number.
pub const METAL_COUNT_ERROR: &'static str = "Error parsing metal count";

/// Message for a string in which no currency was found.
pub const NO_CURRENCY_ERROR: &'static str = "No currencies could be parsed from string";

} // verus!
