//! The client's side of a download: slices are read until a short one comes,
//! and their concatenation is decoded.
use vstd::prelude::*;
use vstd::string::StringExecFns;
use crate::codec::decode;
use crate::codec::decodes_to;
use crate::codec::encoder_output;
use crate::codec::is_base32_digit;
use crate::codec::lemma_round_trip;
use crate::codec::FormatError;
use crate::codec::Message;
use crate::server::read_slice;
use crate::server::slice_bytes;
use vstd::utf8::decode_utf8;
use vstd::utf8::encode_utf8;
use vstd::utf8::encode_utf8_decode_utf8;
use vstd::utf8::encode_utf8_valid_utf8;
use vstd::utf8::is_ascii_chars;
use vstd::utf8::is_ascii_chars_encode_utf8;
use vstd::utf8::is_char_boundary;
use vstd::utf8::is_char_boundary_iff_not_is_continuation_byte;
use vstd::utf8::is_char_boundary_start_end_of_seq;
use crate::server::MAX_SLICE;

verus! {

/// Adds one slice to what was read so far; the result says whether the
/// slice was the last one (shorter than `MAX_SLICE` bytes).
pub fn collect_slice(acc: &mut String, slice: &str) -> (done: bool)
    ensures
        final(acc)@ == old(acc)@ + slice@,
        done == (encode_utf8(slice@).len() < MAX_SLICE),
{
    acc.append(slice);
    slice.as_bytes().len() < MAX_SLICE
}

/// The message that the collected text holds.
pub fn finish_download(acc: &str) -> (r: Result<Message, FormatError>)
    ensures
        forall|key: Seq<char>, value: Seq<char>|
            #[trigger] decodes_to(acc@, key, value) ==> (r matches Ok(m) && m.key@ == key
                && m.value@ == value),
        r matches Ok(m) ==> decodes_to(acc@, m.key@, m.value@),
{
    decode(acc)
}

/// The concatenation of `n + 1` consecutive reads of `key`.
pub open spec fn collect_reads(m: Map<Seq<char>, Seq<char>>, key: Seq<char>, n: nat) -> Seq<char>
    decreases n,
{
    let (m2, c) = read_slice(m, key);
    if n == 0 {
        c
    } else {
        c + collect_reads(m2, key, (n - 1) as nat)
    }
}

/// The store after `n + 1` consecutive reads of `key`.
pub open spec fn store_after_reads(m: Map<Seq<char>, Seq<char>>, key: Seq<char>, n: nat) -> Map<
    Seq<char>,
    Seq<char>,
>
    decreases n,
{
    let (m2, c) = read_slice(m, key);
    if n == 0 {
        m2
    } else {
        store_after_reads(m2, key, (n - 1) as nat)
    }
}

/// Of `n + 1` consecutive reads of `key`, the first `n` are full and the
/// last is short, so that a reader stops exactly there.
pub open spec fn stops_after(m: Map<Seq<char>, Seq<char>>, key: Seq<char>, n: nat) -> bool
    decreases n,
{
    let (m2, c) = read_slice(m, key);
    if n == 0 {
        encode_utf8(c).len() < MAX_SLICE
    } else {
        encode_utf8(c).len() == MAX_SLICE && stops_after(m2, key, (n - 1) as nat)
    }
}

proof fn lemma_ascii_split(v: Seq<char>, k: int)
    requires
        is_ascii_chars(v),
        0 <= k <= v.len(),
    ensures
        encode_utf8(v).len() == v.len(),
        decode_utf8(encode_utf8(v).take(k)) == v.take(k),
        decode_utf8(encode_utf8(v).skip(k)) == v.skip(k),
        is_ascii_chars(v.skip(k)),
        encode_utf8(v.take(k)).len() == k,
{
    let b = encode_utf8(v);
    is_ascii_chars_encode_utf8(v);
    assert(is_ascii_chars(v.take(k)));
    assert(is_ascii_chars(v.skip(k)));
    is_ascii_chars_encode_utf8(v.take(k));
    is_ascii_chars_encode_utf8(v.skip(k));
    assert(encode_utf8(v.take(k)) =~= b.take(k));
    assert(encode_utf8(v.skip(k)) =~= b.skip(k));
    encode_utf8_decode_utf8(v.take(k));
    encode_utf8_decode_utf8(v.skip(k));
}

/// A stored value comes back whole: reading a text value slice by slice
/// stops after `len / MAX_SLICE + 1` reads (the last one empty where the
/// length is a multiple of `MAX_SLICE`), the slices make up the value, and
/// the key is gone afterwards.
pub proof fn lemma_pagination(m: Map<Seq<char>, Seq<char>>, key: Seq<char>)
    requires
        m.contains_key(key),
        is_ascii_chars(m[key]),
    ensures
        stops_after(m, key, m[key].len() / (MAX_SLICE as nat)),
        collect_reads(m, key, m[key].len() / (MAX_SLICE as nat)) == m[key],
        !store_after_reads(m, key, m[key].len() / (MAX_SLICE as nat)).contains_key(key),
    decreases m[key].len(),
{
    let v = m[key];
    let b = encode_utf8(v);
    let (m2, c) = read_slice(m, key);
    encode_utf8_valid_utf8(v);
    is_char_boundary_start_end_of_seq(b);
    if v.len() < MAX_SLICE {
        lemma_ascii_split(v, v.len() as int);
        assert(slice_bytes(v) == v.len());
        assert(v.take(v.len() as int) == v);
        assert(c == v);
        assert(m2 == m.remove(key));
    } else {
        lemma_ascii_split(v, MAX_SLICE as int);
        if v.len() > MAX_SLICE {
            is_char_boundary_iff_not_is_continuation_byte(b, MAX_SLICE as int);
            is_ascii_chars_encode_utf8(v);
            assert(b[MAX_SLICE as int] == v[MAX_SLICE as int] as u8);
        }
        assert(is_char_boundary(b, MAX_SLICE as int));
        assert(slice_bytes(v) == MAX_SLICE);
        let rest = v.skip(MAX_SLICE as int);
        assert(c == v.take(MAX_SLICE as int));
        assert(m2 == m.insert(key, rest));
        assert(m2[key] == rest);
        lemma_pagination(m2, key);
        assert(rest.len() / (MAX_SLICE as nat) == v.len() / (MAX_SLICE as nat) - 1);
        assert(c + rest =~= v);
    }
}

/// A download returns the message: where the store holds the text that the
/// encoder gave for `Message { key, value }`, the slices of consecutive reads
/// make up that text, the reader stops after the last, and the text decodes
/// to exactly that message.
pub proof fn lemma_download_round_trip(
    m: Map<Seq<char>, Seq<char>>,
    name: Seq<char>,
    key: Seq<char>,
    value: Seq<char>,
)
    requires
        m.contains_key(name),
        encoder_output(m[name], key, value),
    ensures
        stops_after(m, name, m[name].len() / (MAX_SLICE as nat)),
        collect_reads(m, name, m[name].len() / (MAX_SLICE as nat)) == m[name],
        decodes_to(collect_reads(m, name, m[name].len() / (MAX_SLICE as nat)), key, value),
{
    let t = m[name];
    assert forall|i: int| 0 <= i < t.len() implies '\0' <= #[trigger] t[i] <= '\u{7f}' by {
        assert(is_base32_digit(t[i]));
    }
    lemma_pagination(m, name);
    lemma_round_trip(key, value);
}

} // verus!
