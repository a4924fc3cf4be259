use vstd::prelude::*;

verus! {

/// The text that a JSON document denotes when the whole document is one
/// string value, and `None` for every other input: malformed JSON, or a value
/// that is no string. It stands for what the parser of `serde_json` returns;
/// nothing further is stated of it here.
pub uninterp spec fn string_token_text(token: Seq<u8>) -> Option<Seq<char>>;

/// A decoded text as the contracts see it.
pub open spec fn text_of(decoded: Option<Vec<char>>) -> Option<Seq<char>> {
    match decoded {
        Some(chars) => Some(chars@),
        None => None,
    }
}

/// Calls `serde_json::from_slice` to read `token` as a JSON value and keeps
/// the characters of the result when that value is a string.
///
/// Trusted, not proved: the parser depends on its input alone, and the text it
/// returns for `token` is the one that [`string_token_text`] names; a parse
/// error and a value of another kind both give `None`.
#[verifier::external_body]
pub(crate) fn decode_string_token(token: &Vec<u8>) -> (text: Option<Vec<char>>)
    ensures
        text_of(text) == string_token_text(token@),
{
    match serde_json::from_slice::<serde_json::Value>(token) {
        Ok(serde_json::Value::String(s)) => Some(s.chars().collect()),
        _ => None,
    }
}

} // verus!
