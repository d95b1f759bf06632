use dns_kv::codec::{encode, Message};
use dns_kv::dns::{
    a_query_record, query_kind, aaaa_query_record, txt_query_record, upload_queries, TYPE_A, TYPE_AAAA,
    TYPE_TXT,
};
use dns_kv::server::QueryKind;
use dns_kv::upload::upload_names;
use simple_dns::{Packet, QTYPE, TYPE};

fn question(bytes: &[u8]) -> (String, QTYPE) {
    let p = Packet::parse(bytes).unwrap();
    assert_eq!(p.id(), 1);
    assert_eq!(p.questions.len(), 1);
    let q = &p.questions[0];
    (q.qname.to_string(), q.qtype)
}

#[test]
fn query_kind_of_codes() {
    assert_eq!(query_kind(u16::from(TYPE::A)), QueryKind::A);
    assert_eq!(query_kind(u16::from(TYPE::AAAA)), QueryKind::Aaaa);
    assert_eq!(query_kind(u16::from(TYPE::TXT)), QueryKind::Txt);
    assert_eq!(query_kind(u16::from(TYPE::MX)), QueryKind::Other);
}

#[test]
fn record_type_codes() {
    assert_eq!(u16::from(TYPE::A), TYPE_A);
    assert_eq!(u16::from(TYPE::AAAA), TYPE_AAAA);
    assert_eq!(u16::from(TYPE::TXT), TYPE_TXT);
}

#[test]
fn query_records_carry_name_and_type() {
    let (n, t) = question(&txt_query_record("HELLO"));
    assert_eq!(n, "HELLO");
    assert_eq!(t, QTYPE::TYPE(TYPE::TXT));
    let (n, t) = question(&a_query_record("beef"));
    assert_eq!(n, "beef");
    assert_eq!(t, QTYPE::TYPE(TYPE::A));
    let (n, t) = question(&aaaa_query_record("ABC.beef"));
    assert_eq!(n, "ABC.beef");
    assert_eq!(t, QTYPE::TYPE(TYPE::AAAA));
}

#[test]
fn upload_queries_in_order() {
    let m = Message {
        key: "HELLO".to_string(),
        value: "W".repeat(100),
    };
    let names = upload_names(0x2a, &encode(&m));
    let qs = upload_queries(0x2a, &m);
    assert_eq!(qs.len(), names.len() + 1);
    for (q, name) in qs.iter().zip(names.iter()) {
        assert_eq!(question(q), (name.clone(), QTYPE::TYPE(TYPE::AAAA)));
    }
    assert_eq!(question(qs.last().unwrap()), ("2a".to_string(), QTYPE::TYPE(TYPE::A)));
}

#[test]
fn hello_world_upload_is_one_chunk_and_a_commit() {
    let m = Message {
        key: "HELLO".to_string(),
        value: "WORLD".to_string(),
    };
    let qs = upload_queries(0x1f, &m);
    assert_eq!(qs.len(), 2);
    assert_eq!(
        question(&qs[0]),
        (
            "AUAAAAAAAAAAASCFJRGE6BIAAAAAAAAAABLU6USMIQ.1f".to_string(),
            QTYPE::TYPE(TYPE::AAAA)
        )
    );
    assert_eq!(question(&qs[1]), ("1f".to_string(), QTYPE::TYPE(TYPE::A)));
}
