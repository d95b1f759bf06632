use dns_kv::codec::{encode, FormatError, Message};
use dns_kv::download::{collect_slice, finish_download};
use dns_kv::server::{
    answer_question, parse_a_query, parse_aaaa_query, parse_txt_query, Answer, QueryKind,
    ServerError, PLACEHOLDER_A, PLACEHOLDER_AAAA,
};
use dns_kv::store::{set_value, Database};
use dns_kv::upload::{commit_name, upload_names};

fn upload(db: &mut Database, id: u16, key: &str, value: &str) {
    let m = Message {
        key: key.to_string(),
        value: value.to_string(),
    };
    let text = encode(&m);
    for name in upload_names(id, &text) {
        let a = answer_question(db, QueryKind::Aaaa, &name).unwrap();
        assert!(matches!(a, Answer::Aaaa(x) if x == PLACEHOLDER_AAAA));
    }
    let a = answer_question(db, QueryKind::A, &commit_name(id)).unwrap();
    assert!(matches!(a, Answer::A(x) if x == PLACEHOLDER_A));
}

fn download(db: &mut Database, key: &str) -> Message {
    let mut acc = String::new();
    loop {
        let slice = match answer_question(db, QueryKind::Txt, key).unwrap() {
            Answer::Txt(t) => t,
            _ => panic!("not a TXT answer"),
        };
        assert!(slice.len() <= 255);
        if collect_slice(&mut acc, &slice) {
            break;
        }
    }
    finish_download(&acc).unwrap()
}

#[test]
fn hello_world_full_round_trip() {
    let mut db = Database::new();
    upload(&mut db, 0x1a2b, "HELLO", "WORLD");
    let stored = db.peek(&"HELLO".to_string()).unwrap();
    assert_eq!(stored, encode(&Message { key: "HELLO".to_string(), value: "WORLD".to_string() }));
    assert_eq!(db.peek(&"1A2B".to_string()), None);
    let m = download(&mut db, "HELLO");
    assert_eq!(m.key, "HELLO");
    assert_eq!(m.value, "WORLD");
}

#[test]
fn lower_case_key_is_folded() {
    let mut db = Database::new();
    upload(&mut db, 0xabc, "hello", "world");
    assert!(db.peek(&"HELLO".to_string()).is_some());
    let m = download(&mut db, "hElLo");
    assert_eq!(m.key, "hello");
    assert_eq!(m.value, "world");
}

#[test]
fn long_value_needs_many_chunks_and_slices() {
    let mut db = Database::new();
    let value = "0123456789".repeat(100);
    upload(&mut db, 0xffff, "BIG", &value);
    let m = download(&mut db, "BIG");
    assert_eq!(m.value, value);
    assert_eq!(db.peek(&"BIG".to_string()), None);
}

#[test]
fn second_upload_replaces_first() {
    let mut db = Database::new();
    upload(&mut db, 1, "K", "first value");
    upload(&mut db, 2, "K", "second");
    let m = download(&mut db, "K");
    assert_eq!(m.value, "second");
}

#[test]
fn pagination_slices() {
    let mut db = Database::new();
    let value = "A".repeat(600);
    set_value(&mut db, "KEY".to_string(), value.clone());
    let s1 = parse_txt_query(&mut db, "key");
    let s2 = parse_txt_query(&mut db, "key");
    let s3 = parse_txt_query(&mut db, "key");
    assert_eq!((s1.len(), s2.len(), s3.len()), (255, 255, 90));
    assert_eq!(format!("{s1}{s2}{s3}"), value);
    assert_eq!(db.peek(&"KEY".to_string()), None);
}

#[test]
fn exact_multiple_then_empty_slice() {
    let mut db = Database::new();
    set_value(&mut db, "KEY".to_string(), "B".repeat(255));
    assert_eq!(parse_txt_query(&mut db, "KEY"), "B".repeat(255));
    assert_eq!(db.peek(&"KEY".to_string()), Some(String::new()));
    assert_eq!(parse_txt_query(&mut db, "KEY"), "");
    assert_eq!(db.peek(&"KEY".to_string()), None);
    assert_eq!(parse_txt_query(&mut db, "KEY"), "AAAA");
}

#[test]
fn exact_multiple_value_downloads_whole() {
    let mut db = Database::new();
    let mut found = false;
    for len in 0..200usize {
        let value = "v".repeat(len);
        let m = Message { key: "K".to_string(), value: value.clone() };
        if encode(&m).len() % 255 == 0 {
            upload(&mut db, 9, "K", &value);
            assert_eq!(download(&mut db, "K").value, value);
            assert_eq!(db.peek(&"K".to_string()), None);
            found = true;
        }
    }
    assert!(found);
}

#[test]
fn slices_are_bounded_in_bytes() {
    let mut db = Database::new();
    let value = format!("a{}", "\u{e9}".repeat(200));
    assert_eq!(value.len(), 401);
    set_value(&mut db, "KEY".to_string(), value.clone());
    let s1 = parse_txt_query(&mut db, "key");
    assert_eq!(s1.len(), 255);
    assert_eq!(s1, format!("a{}", "\u{e9}".repeat(127)));
    let s2 = parse_txt_query(&mut db, "key");
    assert_eq!(s2.len(), 146);
    assert_eq!(format!("{s1}{s2}"), value);
    assert_eq!(db.peek(&"KEY".to_string()), None);
}

#[test]
fn slice_stops_before_a_split_character() {
    let mut db = Database::new();
    let value = format!("{}{}", "a".repeat(254), "\u{e9}z");
    set_value(&mut db, "KEY".to_string(), value);
    assert_eq!(parse_txt_query(&mut db, "KEY"), "a".repeat(254));
    assert_eq!(parse_txt_query(&mut db, "KEY"), "\u{e9}z");
}

#[test]
fn missing_key_reads_default_marker() {
    let mut db = Database::new();
    assert_eq!(parse_txt_query(&mut db, "nothing"), "AAAA");
    assert_eq!(db.peek(&"NOTHING".to_string()), None);
}

#[test]
fn empty_value_reads_empty_slice() {
    let mut db = Database::new();
    set_value(&mut db, "E".to_string(), String::new());
    assert_eq!(parse_txt_query(&mut db, "e"), "");
}

#[test]
fn malformed_chunk_name_changes_nothing() {
    let mut db = Database::new();
    set_value(&mut db, "OTHER".to_string(), "keep".to_string());
    let r = parse_aaaa_query(&mut db, "nodotshere");
    assert!(matches!(r, Err(ServerError::MalformedName)));
    assert_eq!(db.peek(&"OTHER".to_string()), Some("keep".to_string()));
    assert_eq!(db.peek(&"NODOTSHERE".to_string()), None);
}

#[test]
fn chunk_appends_to_transaction_entry() {
    let mut db = Database::new();
    parse_aaaa_query(&mut db, "abc.ff").unwrap();
    parse_aaaa_query(&mut db, "def.ff.extra").unwrap();
    assert_eq!(db.peek(&"FF".to_string()), Some("ABCDEF".to_string()));
}

#[test]
fn commit_of_garbage_is_decode_error() {
    let mut db = Database::new();
    parse_aaaa_query(&mut db, "AAAA.1").unwrap();
    let r = parse_a_query(&mut db, "1");
    assert!(matches!(r, Err(ServerError::Decode(FormatError::NotRecord))));
    assert_eq!(db.peek(&"1".to_string()), None);
    set_value(&mut db, "OTHER".to_string(), "keep".to_string());
    let r = parse_a_query(&mut db, "2");
    assert!(matches!(r, Err(ServerError::UnknownTransaction)));
    assert_eq!(db.peek(&"OTHER".to_string()), Some("keep".to_string()));
    parse_aaaa_query(&mut db, "a.3").unwrap();
    let r = parse_a_query(&mut db, "3");
    assert!(matches!(r, Err(ServerError::Decode(FormatError::NotBase32))));
}

#[test]
fn unsupported_query_type() {
    let mut db = Database::new();
    let r = answer_question(&mut db, QueryKind::Other, "X");
    assert!(matches!(r, Err(ServerError::UnsupportedQueryType)));
}

#[test]
fn collect_slice_stops_on_short_slice() {
    let mut acc = String::from("AB");
    assert!(!collect_slice(&mut acc, &"C".repeat(255)));
    assert!(collect_slice(&mut acc, "D"));
    assert!(collect_slice(&mut acc, ""));
    assert_eq!(acc.len(), 2 + 255 + 1);
}
