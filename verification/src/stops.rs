//! What is asked of the journey planner: the addresses of its two queries, and the stop
//! that a lookup names.

use crate::assembler::FetchError;
use vstd::prelude::*;
use vstd::string::*;
use vstd::utf8::encode_utf8;

verus! {

/// Whether a byte stands for itself in a query: an ASCII letter, a digit, or one of `-`,
/// `.`, `_`, `~`.
pub open spec fn is_unreserved(byte: u8) -> bool {
    ||| 0x30 <= byte <= 0x39
    ||| 0x41 <= byte <= 0x5a
    ||| 0x61 <= byte <= 0x7a
    ||| byte == 0x2d
    ||| byte == 0x2e
    ||| byte == 0x5f
    ||| byte == 0x7e
}

/// The upper-case hexadecimal digit for `n` in 0..=15.
pub open spec fn hex_digit(n: int) -> char {
    if n < 10 {
        (0x30 + n) as u8 as char
    } else {
        (0x41 + n - 10) as u8 as char
    }
}

/// One byte as it stands in a query: itself, or `%` and its two hexadecimal digits.
pub open spec fn escaped_byte(byte: u8) -> Seq<char> {
    if is_unreserved(byte) {
        seq![byte as char]
    } else {
        seq!['%', hex_digit(byte as int / 16), hex_digit(byte as int % 16)]
    }
}

/// Bytes as they stand in a query, each escaped by itself.
pub open spec fn percent_encoded(bytes: Seq<u8>) -> Seq<char>
    decreases bytes.len(),
{
    if bytes.len() == 0 {
        Seq::<char>::empty()
    } else {
        percent_encoded(bytes.drop_last()) + escaped_byte(bytes.last())
    }
}

/// The address that looks up the stop called `name`.
pub open spec fn locations_address(name: Seq<char>) -> Seq<char> {
    "https://v6.db.transport.rest/locations?query="@ + percent_encoded(encode_utf8(name))
        + "&results=1"@
}

/// The address that asks for the bus journeys between two stops.
pub open spec fn journeys_address(from_id: Seq<char>, to_id: Seq<char>) -> Seq<char> {
    "https://v6.db.transport.rest/journeys?from="@ + percent_encoded(encode_utf8(from_id))
        + "&to="@ + percent_encoded(encode_utf8(to_id)) + "&results=50&products[bus]=true"@
}

/// Calls `urlencoding::encode` and takes the result as an owned `String`.
///
/// Trusted: every byte of the text's UTF-8 form is kept where it is an ASCII letter, a digit
/// or one of `-`, `.`, `_`, `~`, and is otherwise written as `%` and two upper-case
/// hexadecimal digits.
#[verifier::external_body]
fn percent_encode(text: &str) -> (r: String)
    ensures
        r@ == percent_encoded(encode_utf8(text@)),
{
    urlencoding::encode(text).into_owned()
}

/// The address that looks up the stop called `name`; the first stop of the reply is wanted.
pub fn locations_url(name: &str) -> (r: String)
    ensures
        r@ == locations_address(name@),
{
    let mut url: String = String::from_str("https://v6.db.transport.rest/locations?query=");
    url.append(percent_encode(name).as_str());
    url.append("&results=1");
    url
}

/// The address that asks for up to 50 bus journeys from the stop `from_id` to the
/// stop `to_id`.
pub fn journeys_url(from_id: &str, to_id: &str) -> (r: String)
    ensures
        r@ == journeys_address(from_id@, to_id@),
{
    let mut url: String = String::from_str("https://v6.db.transport.rest/journeys?from=");
    url.append(percent_encode(from_id).as_str());
    url.append("&to=");
    url.append(percent_encode(to_id).as_str());
    url.append("&results=50&products[bus]=true");
    url
}

/// One stop of a lookup's reply. The identifier may be missing.
#[derive(Debug)]
pub struct Location {
    pub id: Option<String>,
}

/// The identifier of the stop that a lookup names: that of the first stop of the reply.
///
/// Fails where the reply is empty or its first stop has no identifier.
pub fn stop_id(locations: &Vec<Location>) -> (r: Result<String, FetchError>)
    ensures
        r is Ok <==> locations@.len() > 0 && locations@[0].id is Some,
        r matches Ok(id) ==> id@ == locations@[0].id->0@,
        r matches Err(error) ==> error == FetchError::StopNotFound,
{
    if locations.len() == 0 {
        return Err(FetchError::StopNotFound);
    }
    match &locations[0].id {
        Some(id) => Ok(id.clone()),
        None => Err(FetchError::StopNotFound),
    }
}

} // verus!
