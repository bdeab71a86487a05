//! The wire format of the emulator endpoint: a message travels as
//! `{"data":"<hex>"}` in both directions.
use vstd::prelude::*;
use vstd::string::StringExecFns;

verus! {

#[verifier::external_type_specification]
#[verifier::external_body]
pub struct ExFromHexError(hex::FromHexError);

/// Lowercase hexadecimal digit of `v < 16`.
pub open spec fn hex_digit(v: int) -> char {
    if v < 8 {
        if v < 4 {
            if v == 0 { '0' } else if v == 1 { '1' } else if v == 2 { '2' } else { '3' }
        } else {
            if v == 4 { '4' } else if v == 5 { '5' } else if v == 6 { '6' } else { '7' }
        }
    } else {
        if v < 12 {
            if v == 8 { '8' } else if v == 9 { '9' } else if v == 10 { 'a' } else { 'b' }
        } else {
            if v == 12 { 'c' } else if v == 13 { 'd' } else if v == 14 { 'e' } else { 'f' }
        }
    }
}

/// Two lowercase digits for each byte, high nibble first.
pub open spec fn hex_lower(b: Seq<u8>) -> Seq<char> {
    Seq::new(
        2 * b.len(),
        |i: int| if i % 2 == 0 { hex_digit(b[i / 2] as int / 16) } else { hex_digit(b[i / 2] as int % 16) },
    )
}

/// Value of a hexadecimal digit of either case, or -1.
pub open spec fn hex_val(c: char) -> int {
    if '0' <= c && c <= '9' {
        c as int - '0' as int
    } else if 'a' <= c && c <= 'f' {
        c as int - 'a' as int + 10
    } else if 'A' <= c && c <= 'F' {
        c as int - 'A' as int + 10
    } else {
        -1
    }
}

/// An even number of hexadecimal digits.
pub open spec fn is_hex_text(s: Seq<char>) -> bool {
    &&& s.len() % 2 == 0
    &&& forall|i: int| 0 <= i < s.len() ==> hex_val(#[trigger] s[i]) >= 0
}

/// The bytes that hexadecimal text stands for, two digits each.
pub open spec fn hex_bytes(s: Seq<char>) -> Seq<u8> {
    Seq::new(s.len() / 2, |i: int| (hex_val(s[2 * i]) * 16 + hex_val(s[2 * i + 1])) as u8)
}

/// Relies on hex::encode: two lowercase digits for each byte, high nibble first.
#[verifier::external_body]
fn hex_encode(b: &[u8]) -> (r: String)
    ensures
        r@ == hex_lower(b@),
{
    hex::encode(b)
}

/// Relies on hex::decode: it succeeds exactly on an even number of digits of
/// either case, and turns each pair into one byte.
#[verifier::external_body]
fn hex_decode(s: &str) -> (r: Result<Vec<u8>, hex::FromHexError>)
    ensures
        r.is_ok() == is_hex_text(s@),
        r matches Ok(v) ==> v@ == hex_bytes(s@),
{
    hex::decode(s)
}


/// Text that a JSON string holds as it is: no quote, no backslash and no
/// control character.
pub open spec fn json_plain(s: Seq<char>) -> bool {
    forall|i: int|
        0 <= i < s.len() ==> #[trigger] s[i] != '"' && s[i] != '\\' && s[i] as u32 >= 0x20
}

/// A JSON object with one string member, written without spaces.
pub open spec fn json_object_text(key: Seq<char>, value: Seq<char>) -> Seq<char> {
    seq!['{', '"'] + key + seq!['"', ':', '"'] + value + seq!['"', '}']
}

/// Relies on json::JsonValue::new_object, insert and dump: an object with one
/// member is written as `{"key":"value"}`, and only quotes, backslashes and
/// control characters are escaped.
#[verifier::external_body]
fn json_string_object(key: &str, value: &str) -> (r: String)
    ensures
        json_plain(key@) && json_plain(value@) ==> r@ == json_object_text(key@, value@),
{
    let mut object = json::JsonValue::new_object();
    let _ = object.insert(key, value);
    object.dump()
}

/// What json::parse, then indexing by `key` and `as_str`, make of `body`:
/// `None` where `body` is no JSON text, `Some(None)` where it has no string
/// member `key`.
pub uninterp spec fn json_string_member(body: Seq<char>, key: Seq<char>) -> Option<Option<Seq<char>>>;

/// Relies on json::parse, indexing a value by a key and JsonValue::as_str.
#[verifier::external_body]
fn json_string_member_of(body: &str, key: &str) -> (r: Option<Option<String>>)
    ensures
        match r {
            None => json_string_member(body@, key@) is None,
            Some(None) => json_string_member(body@, key@) == Some(None::<Seq<char>>),
            Some(Some(v)) => json_string_member(body@, key@) == Some(Some(v@)),
        },
{
    match json::parse(body) {
        Ok(v) => Some(v[key].as_str().map(|m| m.to_string())),
        Err(_) => None,
    }
}

/// Why a reply of the emulator could not be read.
#[derive(Clone, Copy, Debug, PartialEq, Eq, Structural)]
pub enum BridgeError {
    /// The body is no JSON text.
    NotJson,
    /// The body has no string member `data`.
    MissingData,
    /// The `data` member is not an even number of hexadecimal digits.
    InvalidHex,
}

/// The name of the member that carries a message.
pub open spec fn data_key() -> Seq<char> {
    seq!['d', 'a', 't', 'a']
}

/// The body of the request that carries `apdu`.
pub open spec fn request_text(apdu: Seq<u8>) -> Seq<char> {
    json_object_text(data_key(), hex_lower(apdu))
}

/// The message in a reply whose `data` member was found to be `member`.
pub open spec fn reply_spec(member: Option<Option<Seq<char>>>) -> Result<Seq<u8>, BridgeError> {
    match member {
        None => Err(BridgeError::NotJson),
        Some(None) => Err(BridgeError::MissingData),
        Some(Some(text)) => if is_hex_text(text) {
            Ok(hex_bytes(text))
        } else {
            Err(BridgeError::InvalidHex)
        },
    }
}

/// `Result` with the message as a sequence of bytes.
pub open spec fn reply_view(r: Result<Vec<u8>, BridgeError>) -> Result<Seq<u8>, BridgeError> {
    match r {
        Ok(v) => Ok(v@),
        Err(e) => Err(e),
    }
}

/// `member` with its text as a sequence of characters.
pub open spec fn member_view(member: Option<Option<String>>) -> Option<Option<Seq<char>>> {
    match member {
        None => None,
        Some(None) => Some(None),
        Some(Some(s)) => Some(Some(s@)),
    }
}

proof fn lemma_hex_digit(v: int)
    requires
        0 <= v < 16,
    ensures
        hex_val(hex_digit(v)) == v,
        json_plain(seq![hex_digit(v)]),
{
}

proof fn lemma_hex_lower(b: Seq<u8>)
    ensures
        is_hex_text(hex_lower(b)),
        hex_bytes(hex_lower(b)) == b,
        json_plain(hex_lower(b)),
{
    let h = hex_lower(b);
    assert forall|i: int| 0 <= i < h.len() implies hex_val(#[trigger] h[i]) >= 0 && h[i] != '"'
        && h[i] != '\\' && h[i] as u32 >= 0x20 by {
        lemma_hex_digit(b[i / 2] as int / 16);
        lemma_hex_digit(b[i / 2] as int % 16);
        assert(json_plain(seq![hex_digit(b[i / 2] as int / 16)]));
        assert(seq![hex_digit(b[i / 2] as int / 16)][0] == hex_digit(b[i / 2] as int / 16));
        assert(json_plain(seq![hex_digit(b[i / 2] as int % 16)]));
        assert(seq![hex_digit(b[i / 2] as int % 16)][0] == hex_digit(b[i / 2] as int % 16));
    }
    assert forall|i: int| 0 <= i < b.len() implies hex_bytes(h)[i] == b[i] by {
        lemma_hex_digit(b[i] as int / 16);
        lemma_hex_digit(b[i] as int % 16);
        assert(h[2 * i] == hex_digit(b[i] as int / 16));
        assert(h[2 * i + 1] == hex_digit(b[i] as int % 16));
    }
    assert(hex_bytes(h) =~= b);
}

/// The endpoint that takes messages, under the emulator's base URL.
pub fn apdu_endpoint(base_url: &str) -> (r: String)
    ensures
        r@ == base_url@ + seq!['/', 'a', 'p', 'd', 'u'],
{
    proof {
        reveal_strlit("/apdu");
    }
    String::from_str(base_url).concat("/apdu")
}

/// The JSON body of the request that carries `apdu`: `{"data":"<hex>"}`.
pub fn request_body(apdu: &[u8]) -> (r: String)
    ensures
        r@ == request_text(apdu@),
{
    let hex_text = hex_encode(apdu);
    proof {
        reveal_strlit("data");
        lemma_hex_lower(apdu@);
        assert("data"@ =~= data_key());
    }
    json_string_object("data", hex_text.as_str())
}

/// The message of a reply whose `data` member was found to be `member`
/// (`None`: the body was no JSON text; `Some(None)`: no string member `data`).
pub fn reply_from_member(member: Option<Option<String>>) -> (r: Result<Vec<u8>, BridgeError>)
    ensures
        reply_view(r) == reply_spec(member_view(member)),
{
    match member {
        None => Err(BridgeError::NotJson),
        Some(None) => Err(BridgeError::MissingData),
        Some(Some(text)) => match hex_decode(text.as_str()) {
            Ok(bytes) => Ok(bytes),
            Err(_) => Err(BridgeError::InvalidHex),
        },
    }
}

/// The message carried by the body of a reply of the emulator.
pub fn reply_from_body(body: &str) -> (r: Result<Vec<u8>, BridgeError>)
    ensures
        reply_view(r) == reply_spec(json_string_member(body@, data_key())),
{
    proof {
        reveal_strlit("data");
        assert("data"@ =~= data_key());
    }
    let member = json_string_member_of(body, "data");
    reply_from_member(member)
}

/// An emulator that answers each request with the hex text it received gives
/// back the message that was sent.
pub proof fn lemma_echo_round_trip(m: Seq<u8>)
    ensures
        reply_spec(Some(Some(hex_lower(m)))) == Ok::<Seq<u8>, BridgeError>(m),
{
    lemma_hex_lower(m);
}

} // verus!
