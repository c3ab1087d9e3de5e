use vstd::prelude::*;

verus! {

#[verifier::external_type_specification]
#[verifier::external_body]
pub struct ExJsonValue(serde_json::Value);

#[verifier::external_type_specification]
#[verifier::external_body]
pub struct ExJsonError(serde_json::Error);

/// JSON whitespace as serde_json's stream decoder skips it before a value:
/// space, line feed, tab and carriage return.
pub open spec fn is_json_ws(b: u8) -> bool {
    b == 0x20u8 || b == 0x0Au8 || b == 0x09u8 || b == 0x0Du8
}

/// Nothing but JSON whitespace (possibly nothing at all).
pub open spec fn all_json_ws(s: Seq<u8>) -> bool {
    forall|i: int| 0 <= i < s.len() ==> is_json_ws(#[trigger] s[i])
}

/// How many bytes serde_json's stream decoder consumes from the front of `s`
/// to decode one JSON value (leading whitespace included), or `None` when it
/// reports an error there.
pub uninterp spec fn decoded_len(s: Seq<u8>) -> Option<nat>;

/// The JSON value that serde_json's stream decoder reads from the front of `s`.
pub uninterp spec fn decoded_value(s: Seq<u8>) -> serde_json::Value;

/// Relies on `serde_json::Deserializer::from_slice(..).into_iter::<Value>()`:
/// its `next` skips JSON whitespace, yields nothing when the input ends there,
/// and otherwise decodes one value without reading past it (a number or a
/// literal must be followed by a delimiter or the end); `byte_offset` then
/// counts the bytes consumed, at least one and at most the input.
#[verifier::external_body]
pub(crate) fn decode_first_value(bytes: &Vec<u8>, start: usize) -> (r: Option<Result<(serde_json::Value, usize), serde_json::Error>>)
    requires
        start <= bytes@.len(),
    ensures
        r is None <==> all_json_ws(bytes@.subrange(start as int, bytes@.len() as int)),
        match r {
            Some(Ok((v, n))) => {
                let rest = bytes@.subrange(start as int, bytes@.len() as int);
                &&& 0 < n <= rest.len()
                &&& decoded_len(rest) == Some(n as nat)
                &&& v == decoded_value(rest)
            },
            Some(Err(_)) => decoded_len(bytes@.subrange(start as int, bytes@.len() as int)) is None,
            None => true,
        },
{
    let mut stream = serde_json::Deserializer::from_slice(&bytes[start..]).into_iter::<serde_json::Value>();
    match stream.next() {
        Some(Ok(v)) => Some(Ok((v, stream.byte_offset()))),
        Some(Err(e)) => Some(Err(e)),
        None => None,
    }
}

} // verus!
