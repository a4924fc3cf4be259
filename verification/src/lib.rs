//! Canonical JSON output for use as cryptographic input.
//!
//! The crate holds the formatter that turns a stream of structural events
//! (scalars, array and object boundaries, keys and values) into the canonical
//! byte encoding: object members ordered by the UTF-16 code units of their
//! decoded names, one member per name, a fixed escape table for strings.
//! Every function is stated over a mathematical model of the formatter's
//! state and proved against it; the one exception is the call of the JSON
//! parser that decodes a key, whose result is taken on trust.

pub mod ascii;
pub mod decode;
pub mod error;
pub mod escape;
pub mod formatter;
pub mod number;
pub mod property;
pub mod protocol;
pub mod sort_key;
pub mod utf8_output;

pub use crate::error::JcsError;
pub use crate::escape::{escape_bytes, CharEscape};
pub use crate::formatter::JcsFormatter;
pub use crate::number::{double_is_finite, single_is_finite};
pub use crate::property::{JsonObject, JsonProperty};
pub use crate::sort_key::{compare_keys, encode_utf16, KeyOrder};
