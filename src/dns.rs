//! The DNS queries that the client sends, and the record types that the
//! server tells apart.
use vstd::prelude::*;
use crate::codec::encode;
use crate::codec::all_base32_digits;
use crate::codec::encoded;
use crate::codec::record_bytes;
use crate::codec::Message;
use crate::server::QueryKind;
use crate::upload::chunk_names;
use crate::upload::commit_name;
use crate::upload::hex_of;
use crate::upload::upload_names;

verus! {

/// The record type of a commit query.
pub const TYPE_A: u16 = 1;

/// The record type of a read query.
pub const TYPE_TXT: u16 = 16;

/// The record type of a chunk query.
pub const TYPE_AAAA: u16 = 28;

/// The kind of query that a record type code asks for.
pub fn query_kind(qtype: u16) -> (r: QueryKind)
    ensures
        qtype == TYPE_A ==> r == QueryKind::A,
        qtype == TYPE_AAAA ==> r == QueryKind::Aaaa,
        qtype == TYPE_TXT ==> r == QueryKind::Txt,
        qtype != TYPE_A && qtype != TYPE_AAAA && qtype != TYPE_TXT ==> r == QueryKind::Other,
{
    if qtype == TYPE_A {
        QueryKind::A
    } else if qtype == TYPE_AAAA {
        QueryKind::Aaaa
    } else if qtype == TYPE_TXT {
        QueryKind::Txt
    } else {
        QueryKind::Other
    }
}

/// The wire bytes of a query with id 1, recursion desired, and one question
/// of class IN for `name` and record type `qtype`.
pub uninterp spec fn query_packet(name: Seq<char>, qtype: u16) -> Seq<u8>;

/// Relies on simple_dns: `Packet::new_query(1)` with the recursion-desired
/// flag and one question (`Name::new_unchecked(name)`, `qtype`, class IN),
/// written out by `Packet::build_bytes_vec`, which writes into a `Vec` and so
/// cannot fail; its bytes depend on the name and the type alone.
#[verifier::external_body]
fn build_query(name: &str, qtype: u16) -> (r: Vec<u8>)
    ensures
        r@ == query_packet(name@, qtype),
{
    let mut pkt = simple_dns::Packet::new_query(1);
    let qname = simple_dns::Name::new_unchecked(name);
    let kind = simple_dns::TYPE::from(qtype).into();
    let q = simple_dns::Question::new(qname, kind, simple_dns::CLASS::IN.into(), false);
    pkt.set_flags(simple_dns::PacketFlag::RECURSION_DESIRED);
    pkt.questions.push(q);
    pkt.build_bytes_vec().unwrap_or_default()
}

/// A read query for `domain`.
pub fn txt_query_record(domain: &str) -> (r: Vec<u8>)
    ensures
        r@ == query_packet(domain@, TYPE_TXT),
{
    build_query(domain, TYPE_TXT)
}

/// A commit query for `domain`.
pub fn a_query_record(domain: &str) -> (r: Vec<u8>)
    ensures
        r@ == query_packet(domain@, TYPE_A),
{
    build_query(domain, TYPE_A)
}

/// A chunk query for `domain`.
pub fn aaaa_query_record(domain: &str) -> (r: Vec<u8>)
    ensures
        r@ == query_packet(domain@, TYPE_AAAA),
{
    build_query(domain, TYPE_AAAA)
}

/// Every query of the upload of `m` under transaction `id`, in the order in
/// which they are sent: one chunk query per chunk name, then the commit. The
/// encoded text is made of base32 digits, eight for each five bytes of the
/// record.
pub fn upload_queries(id: u16, m: &Message) -> (r: Vec<Vec<u8>>)
    ensures
        all_base32_digits(encoded(m.key@, m.value@)),
        encoded(m.key@, m.value@).len() == (8 * record_bytes(m.key@, m.value@).len() + 4) / 5,
        r@.len() == chunk_names(encoded(m.key@, m.value@), id).len() + 1,
        forall|i: int|
            0 <= i < chunk_names(encoded(m.key@, m.value@), id).len() ==> #[trigger] r@[i]@
                == query_packet(chunk_names(encoded(m.key@, m.value@), id)[i], TYPE_AAAA),
        r@[chunk_names(encoded(m.key@, m.value@), id).len() as int]@ == query_packet(
            hex_of(id as nat),
            TYPE_A,
        ),
{
    let text = encode(m);
    let names = upload_names(id, text.as_str());
    let mut queries: Vec<Vec<u8>> = Vec::new();
    let mut i: usize = 0;
    while i < names.len()
        invariant
            i <= names@.len(),
            names@.len() == chunk_names(text@, id).len(),
            forall|j: int| 0 <= j < names@.len() ==> #[trigger] names@[j]@ == chunk_names(text@, id)[j],
            queries@.len() == i,
            forall|j: int|
                0 <= j < i ==> #[trigger] queries@[j]@ == query_packet(
                    chunk_names(text@, id)[j],
                    TYPE_AAAA,
                ),
        decreases names@.len() - i,
    {
        queries.push(aaaa_query_record(names[i].as_str()));
        i = i + 1;
    }
    queries.push(a_query_record(commit_name(id).as_str()));
    queries
}

} // verus!
