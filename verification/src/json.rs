//! The one place where values are handed to `serde_json`.

use vstd::prelude::*;

verus! {

/// The JSON text that `serde_json` gives for an object of two members: the
/// string `text` under the key `text_key` and the numbers `numbers`, as an
/// array, under the key `numbers_key`. None where it gives no text.
pub uninterp spec fn json_object_text(
    text_key: Seq<char>,
    text: Seq<char>,
    numbers_key: Seq<char>,
    numbers: Seq<u32>,
) -> Option<Seq<char>>;

/// Builds a `serde_json::Value` object of two members, `text` under
/// `text_key` and `numbers` under `numbers_key`, and serializes it with
/// `serde_json::to_string`; where that fails, its error is dropped and
/// there is no text. Claimed: the text, or that there is none, depends on
/// nothing but the four arguments.
#[verifier::external_body]
pub(crate) fn json_object(
    text_key: &str,
    text: &str,
    numbers_key: &str,
    numbers: &Vec<u32>,
) -> (made: Option<String>)
    ensures
        made.is_some() ==> json_object_text(text_key@, text@, numbers_key@, numbers@) == Some(
            made.unwrap()@,
        ),
        made.is_none() ==> json_object_text(text_key@, text@, numbers_key@, numbers@).is_none(),
{
    let mut object = serde_json::Map::new();
    object.insert(String::from(text_key), serde_json::Value::from(text));
    object.insert(String::from(numbers_key), serde_json::Value::from(numbers.clone()));
    match serde_json::to_string(&serde_json::Value::Object(object)) {
        Ok(text) => Some(text),
        Err(_) => None,
    }
}

} // verus!
