use vstd::prelude::*;
use crate::metadata::text_of;

verus! {

/// The JSON text of an object with the single member `key`, a string that
/// holds `value`, as `serde_json` writes it.
pub uninterp spec fn json_object_text(key: Seq<char>, value: Seq<char>) -> Seq<char>;

/// The string that the member `key` holds in the JSON object `text`, as
/// `serde_json` reads it: nothing where `text` is no JSON, no object, has no
/// such member, or the member is no string.
pub uninterp spec fn json_member_text(text: Seq<char>, key: Seq<char>) -> Option<Seq<char>>;

/// Not proved: calls `serde_json::to_string` (through `near_sdk`) on an object
/// value built with the one member `key`, a string value that holds `value`.
/// The contract only gives the text a name; it is a function of `key` and
/// `value` alone.
#[verifier::external_body]
pub(crate) fn json_object(key: &String, value: &String) -> (text: String)
    ensures
        text@ == json_object_text(key@, value@),
{
    let mut members = near_sdk::serde_json::Map::new();
    members.insert(key.clone(), near_sdk::serde_json::Value::String(value.clone()));
    near_sdk::serde_json::to_string(&near_sdk::serde_json::Value::Object(members))
        .unwrap_or_default()
}

/// Not proved: calls `serde_json::from_str` (through `near_sdk`) to read
/// `text` as a JSON value, and hands out the string held by its member `key`,
/// picked with `Value::get` and `Value::as_str`.  The contract only gives the
/// outcome a name; it is a function of `text` and `key` alone.
#[verifier::external_body]
pub(crate) fn json_member(text: &String, key: &String) -> (value: Option<String>)
    ensures
        text_of(value) == json_member_text(text@, key@),
{
    match near_sdk::serde_json::from_str::<near_sdk::serde_json::Value>(text.as_str()) {
        Ok(parsed) => parsed.get(key.as_str()).and_then(|member| member.as_str()).map(
            |held| held.to_string(),
        ),
        Err(_) => None,
    }
}

/// The four bytes that JSON skips as white space.
pub open spec fn is_json_space(byte: u8) -> bool {
    byte == 0x20 || byte == 0x0a || byte == 0x09 || byte == 0x0d
}

/// Whether `bytes` is `word` with nothing but JSON white space around it.
pub open spec fn spells(bytes: Seq<u8>, word: Seq<u8>) -> bool {
    exists|start: int|
        {
            &&& 0 <= start
            &&& start + word.len() <= bytes.len()
            &&& #[trigger] bytes.subrange(start, start + word.len()) == word
            &&& forall|k: int| 0 <= k < start ==> is_json_space(#[trigger] bytes[k])
            &&& forall|k: int|
                start + word.len() <= k < bytes.len() ==> is_json_space(#[trigger] bytes[k])
        }
}

/// The bytes of the JSON word `true`.
pub open spec fn json_true() -> Seq<u8> {
    seq![0x74u8, 0x72u8, 0x75u8, 0x65u8]
}

/// The bytes of the JSON word `false`.
pub open spec fn json_false() -> Seq<u8> {
    seq![0x66u8, 0x61u8, 0x6cu8, 0x73u8, 0x65u8]
}

/// Not proved: calls `serde_json::from_slice::<bool>` (through `near_sdk`).
/// The contract claims what its source shows: it skips white space, reads the
/// word `true` or `false`, and accepts only white space after it; any other
/// input is an error, handed out here as `None`.
#[verifier::external_body]
pub(crate) fn json_bool(bytes: &Vec<u8>) -> (value: Option<bool>)
    ensures
        value == Some(true) <==> spells(bytes@, json_true()),
        value == Some(false) <==> spells(bytes@, json_false()),
{
    near_sdk::serde_json::from_slice::<bool>(bytes.as_slice()).ok()
}

/// How many units of gas make a teragas.
pub const GAS_PER_TERAGAS: u64 = 1_000_000_000_000;

/// How many of the smallest currency units make a thousandth of the currency.
pub const YOCTO_PER_MILLI: u128 = 1_000_000_000_000_000_000_000;

/// Not proved: calls `near_sdk::Gas::from_tgas` and reads the result back with
/// `as_gas`.  The contract claims the product that its source computes, and
/// leaves out the amounts on which that product overflows.
#[verifier::external_body]
pub(crate) fn teragas(amount: u64) -> (gas: u64)
    requires
        amount * GAS_PER_TERAGAS <= u64::MAX,
    ensures
        gas == amount * GAS_PER_TERAGAS,
{
    near_sdk::Gas::from_tgas(amount).as_gas()
}

/// Not proved: calls `near_sdk::NearToken::from_millinear` and reads the
/// result back with `as_yoctonear`.  The contract claims the product that its
/// source computes, and leaves out the amounts on which that product
/// overflows.
#[verifier::external_body]
pub(crate) fn millinear(amount: u128) -> (yocto: u128)
    requires
        amount * YOCTO_PER_MILLI <= u128::MAX,
    ensures
        yocto == amount * YOCTO_PER_MILLI,
{
    near_sdk::NearToken::from_millinear(amount).as_yoctonear()
}

} // verus!
