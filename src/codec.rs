//! The payload codec: a `Message` becomes a bincode record, and the record
//! becomes unpadded base32 text, which is safe inside a DNS label.
use vstd::prelude::*;
use vstd::utf8::encode_utf8;

verus! {

/// The logical record that is stored and fetched.
#[derive(Debug, Clone)]
pub struct Message {
    pub key: String,
    pub value: String,
}

/// Why a text does not decode to a `Message`.
#[derive(Debug, Clone, Copy, PartialEq, Eq)]
pub enum FormatError {
    /// The text is not unpadded base32.
    NotBase32,
    /// The bytes are not a record of two strings.
    NotRecord,
}

pub open spec fn pow256(i: nat) -> nat
    decreases i,
{
    if i == 0 {
        1
    } else {
        256 * pow256((i - 1) as nat)
    }
}

/// `n` as eight little-endian bytes.
pub open spec fn le_u64(n: nat) -> Seq<u8> {
    Seq::new(8, |i: int| ((n / pow256(i as nat)) % 256) as u8)
}

/// One string of a record: its UTF-8 length as a `u64`, then its UTF-8 bytes.
pub open spec fn field_bytes(s: Seq<char>) -> Seq<u8> {
    le_u64(encode_utf8(s).len()) + encode_utf8(s)
}

/// The bytes of the record `(key, value)`.
pub open spec fn record_bytes(key: Seq<char>, value: Seq<char>) -> Seq<u8> {
    field_bytes(key) + field_bytes(value)
}

/// `b` starts with the record `(key, value)`.
pub open spec fn record_prefix(b: Seq<u8>, key: Seq<char>, value: Seq<char>) -> bool {
    record_bytes(key, value).len() <= b.len() && b.take(record_bytes(key, value).len() as int)
        == record_bytes(key, value)
}

/// The unpadded base32 text of `b`.
pub uninterp spec fn base32_of(b: Seq<u8>) -> Seq<char>;

/// A digit of the base32 alphabet.
pub open spec fn is_base32_digit(c: char) -> bool {
    ('A' <= c && c <= 'Z') || ('2' <= c && c <= '7')
}

pub open spec fn all_base32_digits(t: Seq<char>) -> bool {
    forall|i: int| 0 <= i < t.len() ==> is_base32_digit(#[trigger] t[i])
}

/// The text of `Message { key, value }`.
pub open spec fn encoded(key: Seq<char>, value: Seq<char>) -> Seq<char> {
    base32_of(record_bytes(key, value))
}

/// What the encoder hands out for `Message { key, value }`: its text, made of
/// base32 digits and never empty.
pub open spec fn encoder_output(t: Seq<char>, key: Seq<char>, value: Seq<char>) -> bool {
    &&& t == encoded(key, value)
    &&& all_base32_digits(t)
    &&& t.len() > 0
}

/// `t` is the base32 text of bytes that start with the record `(key, value)`.
pub open spec fn decodes_to(t: Seq<char>, key: Seq<char>, value: Seq<char>) -> bool {
    exists|b: Seq<u8>| #[trigger] base32_of(b) == t && record_prefix(b, key, value)
}

/// Relies on `bincode::serialize` with its default options (fixed-width
/// little-endian integers): a pair of strings is written as each string's
/// UTF-8 length in eight bytes followed by its UTF-8 bytes, and cannot fail.
#[verifier::external_body]
fn record_to_bytes(key: &String, value: &String) -> (r: Vec<u8>)
    ensures
        r@ == record_bytes(key@, value@),
{
    bincode::serialize(&(key, value)).unwrap_or_default()
}

/// Relies on `bincode::deserialize` with its default options: a pair of
/// strings is read from the front of the bytes (trailing bytes are allowed),
/// and it fails when the front is not such a pair.
#[verifier::external_body]
fn record_from_bytes(b: &[u8]) -> (r: Option<(String, String)>)
    ensures
        r is Some || forall|key: Seq<char>, value: Seq<char>| !record_prefix(b@, key, value),
        r matches Some(p) ==> forall|key: Seq<char>, value: Seq<char>|
            #[trigger] record_prefix(b@, key, value) <==> (p.0@ == key && p.1@ == value),
{
    bincode::deserialize::<(String, String)>(b).ok()
}

/// Relies on `data_encoding::BASE32_NOPAD.encode`: RFC 4648 base32 without
/// padding, one digit of `A`-`Z`, `2`-`7` for each five bits, the last one
/// filled with zero bits.
#[verifier::external_body]
fn base32_encode(b: &[u8]) -> (r: String)
    ensures
        r@ == base32_of(b@),
        r@.len() == (8 * b@.len() + 4) / 5,
        all_base32_digits(r@),
{
    data_encoding::BASE32_NOPAD.encode(b)
}

/// Relies on `data_encoding::BASE32_NOPAD.decode`: it accepts exactly the
/// texts that `encode` produces (trailing bits are checked) and gives back
/// their bytes.
#[verifier::external_body]
fn base32_decode(t: &str) -> (r: Option<Vec<u8>>)
    ensures
        r is Some || forall|b: Seq<u8>| base32_of(b) != t@,
        r matches Some(x) ==> forall|b: Seq<u8>| #[trigger] base32_of(b) == t@ <==> x@ == b,
{
    data_encoding::BASE32_NOPAD.decode(t.as_bytes()).ok()
}

/// The label-safe text of a message.
pub fn encode(m: &Message) -> (r: String)
    ensures
        encoder_output(r@, m.key@, m.value@),
        r@.len() == (8 * record_bytes(m.key@, m.value@).len() + 4) / 5,
{
    let bytes = record_to_bytes(&m.key, &m.value);
    assert(record_bytes(m.key@, m.value@).len() >= 16);
    base32_encode(bytes.as_slice())
}

/// The message that a text holds.
pub fn decode(t: &str) -> (r: Result<Message, FormatError>)
    ensures
        forall|key: Seq<char>, value: Seq<char>|
            #[trigger] decodes_to(t@, key, value) ==> (r matches Ok(m) && m.key@ == key
                && m.value@ == value),
        r matches Ok(m) ==> decodes_to(t@, m.key@, m.value@),
        (r matches Err(e) && e == FormatError::NotBase32) <==> forall|b: Seq<u8>|
            base32_of(b) != t@,
{
    match base32_decode(t) {
        None => Err(FormatError::NotBase32),
        Some(bytes) => {
            assert(base32_of(bytes@) == t@);
            match record_from_bytes(bytes.as_slice()) {
                None => {
                    assert forall|key: Seq<char>, value: Seq<char>|
                        !#[trigger] decodes_to(t@, key, value) by {
                        if decodes_to(t@, key, value) {
                            let b = choose|b: Seq<u8>|
                                #[trigger] base32_of(b) == t@ && record_prefix(b, key, value);
                            assert(bytes@ == b);
                        }
                    }
                    Err(FormatError::NotRecord)
                },
                Some(p) => {
                    let m = Message { key: p.0, value: p.1 };
                    assert(decodes_to(t@, m.key@, m.value@)) by {
                        assert(base32_of(bytes@) == t@);
                    }
                    assert forall|key: Seq<char>, value: Seq<char>|
                        #[trigger] decodes_to(t@, key, value) implies m.key@ == key && m.value@
                        == value by {
                        let b = choose|b: Seq<u8>|
                            #[trigger] base32_of(b) == t@ && record_prefix(b, key, value);
                        assert(bytes@ == b);
                        assert(record_prefix(bytes@, key, value));
                    }
                    Ok(m)
                },
            }
        },
    }
}

/// Decoding the text of a message gives that message back: `decode` returns
/// exactly the message of any text that `decodes_to` it.
pub proof fn lemma_round_trip(key: Seq<char>, value: Seq<char>)
    ensures
        decodes_to(encoded(key, value), key, value),
{
    let b = record_bytes(key, value);
    assert(b.take(b.len() as int) == b);
    assert(base32_of(b) == encoded(key, value) && record_prefix(b, key, value));
}

} // verus!
