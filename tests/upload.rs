use dns_kv::retry::{next_step, ExchangeAction, ExchangeEvent, MAX_ATTEMPTS};
use dns_kv::upload::{commit_name, hex_id, upload_names, MAX_FQDN};

#[test]
fn hex_id_values() {
    assert_eq!(hex_id(0), "0");
    assert_eq!(hex_id(10), "a");
    assert_eq!(hex_id(255), "ff");
    assert_eq!(hex_id(4096), "1000");
    assert_eq!(hex_id(65535), "ffff");
    assert_eq!(commit_name(0xbeef), "beef");
}

#[test]
fn chunk_names_fit_and_rebuild_text() {
    let text: String = "ABCDEFGHIJKLMNOPQRSTUVWXYZ234567".repeat(10);
    for id in [0u16, 0xf, 0xff, 0xfff, 0xffff] {
        let names = upload_names(id, &text);
        let suffix = format!(".{id:x}");
        let size = MAX_FQDN - suffix.len();
        assert_eq!(names.len(), (text.len() + size - 1) / size);
        let mut rebuilt = String::new();
        for n in &names {
            assert!(n.len() <= MAX_FQDN);
            assert!(n.ends_with(&suffix));
            rebuilt.push_str(&n[..n.len() - suffix.len()]);
        }
        assert_eq!(rebuilt, text);
    }
}

#[test]
fn chunk_size_for_four_digit_id() {
    let text = "A".repeat(59);
    let names = upload_names(0xabcd, &text);
    assert_eq!(names.len(), 2);
    assert_eq!(names[0], format!("{}.abcd", "A".repeat(58)));
    assert_eq!(names[0].len(), 63);
    assert_eq!(names[1], "A.abcd");
}

#[test]
fn empty_text_has_no_chunks() {
    assert!(upload_names(7, "").is_empty());
}

#[test]
fn retry_policy_steps() {
    assert_eq!(next_step(1, ExchangeEvent::Reply), (1, ExchangeAction::Done));
    assert_eq!(next_step(1, ExchangeEvent::TimedOut), (2, ExchangeAction::Resend));
    assert_eq!(
        next_step(MAX_ATTEMPTS, ExchangeEvent::TimedOut),
        (MAX_ATTEMPTS, ExchangeAction::GiveUp)
    );
}
