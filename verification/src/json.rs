//! The two JSON documents that the responder sends. Their layout is fixed
//! here; the strings and numbers inside them are written by `serde_json`.

use vstd::prelude::*;

verus! {

/// The JSON string literal for `text`, quotes and escapes included, as
/// `serde_json` writes it.
pub uninterp spec fn json_string_literal(text: Seq<char>) -> Seq<char>;

/// The character for a decimal digit.
pub open spec fn digit(d: nat) -> char
    recommends
        d < 10,
{
    (d + 48) as u8 as char
}

/// A natural number in decimal, without leading zeros.
pub open spec fn decimal(n: nat) -> Seq<char>
    decreases n,
{
    if n < 10 {
        seq![digit(n)]
    } else {
        decimal(n / 10).push(digit(n % 10))
    }
}

/// An integer in decimal, with a minus sign where it is negative.
pub open spec fn integer_text(value: int) -> Seq<char> {
    if value < 0 {
        seq!['-'] + decimal((-value) as nat)
    } else {
        decimal(value as nat)
    }
}

/// Calls `serde_json::Value::from` on a string slice and `to_string` on the
/// result. The contract only names what comes back: the compact JSON string
/// literal for `text`, which depends on `text` alone.
#[verifier::external_body]
fn quote(text: &str) -> (literal: String)
    ensures
        literal@ == json_string_literal(text@),
{
    serde_json::Value::from(text).to_string()
}

/// Calls `serde_json::Value::from` on an `i32` and `to_string` on the result.
/// The contract claims that the number comes back in plain decimal, a minus
/// sign in front where it is negative: `serde_json` writes integers through
/// `itoa`, without exponent, padding or leading zeros.
#[verifier::external_body]
fn number(value: i32) -> (text: String)
    ensures
        text@ == integer_text(value as int),
{
    serde_json::Value::from(value).to_string()
}

/// The status document up to the server's name.
pub open spec fn status_head() -> Seq<char> {
    "{\"players\":{\"max\":0,\"online\":0,\"sample\":[]},\"version\":{\"name\":"@
}

/// The status document between the server's name and the protocol number.
pub open spec fn status_middle() -> Seq<char> {
    ",\"protocol\":"@
}

/// The end of the status document.
pub open spec fn status_tail() -> Seq<char> {
    "}}"@
}

/// The status document around a name that is already a JSON string literal
/// and a protocol number that is already written out: an object with the
/// members `players` (`max` 0, `online` 0, `sample` an empty array) and
/// `version` (`name`, `protocol`), members in alphabetical order, no white
/// space.
pub open spec fn status_layout(name_literal: Seq<char>, protocol_text: Seq<char>) -> Seq<char> {
    status_head() + name_literal + status_middle() + protocol_text + status_tail()
}

/// The status document for a server called `brand` that answers in protocol
/// version `protocol`.
pub open spec fn status_text(brand: Seq<char>, protocol: int) -> Seq<char> {
    status_layout(json_string_literal(brand), integer_text(protocol))
}

/// The words in front of the address in the disconnect message.
pub open spec fn address_notice() -> Seq<char> {
    "Your IP address is "@
}

/// The disconnect document up to its message.
pub open spec fn disconnect_head() -> Seq<char> {
    "{\"text\":"@
}

/// The end of the disconnect document.
pub open spec fn disconnect_tail() -> Seq<char> {
    "}"@
}

/// The disconnect document around a message that is already a JSON string
/// literal: an object with the single member `text`.
pub open spec fn disconnect_layout(message_literal: Seq<char>) -> Seq<char> {
    disconnect_head() + message_literal + disconnect_tail()
}

/// The disconnect document that tells a client its address.
pub open spec fn disconnect_text(peer: Seq<char>) -> Seq<char> {
    disconnect_layout(json_string_literal(address_notice() + peer))
}

/// Lays out the status document around a name literal and a protocol number
/// that are already JSON text.
pub fn status_document(name_literal: &str, protocol_text: &str) -> (document: String)
    ensures
        document@ == status_layout(name_literal@, protocol_text@),
{
    let mut document = String::from_str(
        "{\"players\":{\"max\":0,\"online\":0,\"sample\":[]},\"version\":{\"name\":",
    );
    document.append(name_literal);
    document.append(",\"protocol\":");
    document.append(protocol_text);
    document.append("}}");
    document
}

/// The status document for a server called `brand` and protocol version
/// `protocol`.
pub fn status_json(brand: &str, protocol: i32) -> (document: String)
    ensures
        document@ == status_text(brand@, protocol as int),
{
    let name_literal = quote(brand);
    let protocol_text = number(protocol);
    status_document(name_literal.as_str(), protocol_text.as_str())
}

/// Lays out the disconnect document around a message literal that is already
/// JSON text.
pub fn disconnect_document(message_literal: &str) -> (document: String)
    ensures
        document@ == disconnect_layout(message_literal@),
{
    let mut document = String::from_str("{\"text\":");
    document.append(message_literal);
    document.append("}");
    document
}

/// The sentence that tells a client its address.
pub fn address_message(peer: &str) -> (message: String)
    ensures
        message@ == address_notice() + peer@,
{
    let mut message = String::from_str("Your IP address is ");
    message.append(peer);
    message
}

/// The disconnect document for a client that connected from `peer`, the
/// textual form of its IP address.
pub fn disconnect_json(peer: &str) -> (document: String)
    ensures
        document@ == disconnect_text(peer@),
{
    let message = address_message(peer);
    let message_literal = quote(message.as_str());
    disconnect_document(message_literal.as_str())
}

} // verus!
