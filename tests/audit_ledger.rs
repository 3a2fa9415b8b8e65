use sha2::Digest;
use ugoite_core::audit::{
    append_event, audit_file_path, list_events, normalize_outcome, normalize_retention_limit,
    record_event, rehash_chain, validate_space_id, verify_chain, AuditError, AuditListOptions,
    AuditPayload,
};
use ugoite_core::codec::{
    event_json, ledger_text, list_options_from_json, parse_ledger, payload_from_json,
};
use ugoite_core::event::{AuditEvent, JsonField};
use ugoite_core::json::{json_quote, parse_json};

fn payload(action: &str, actor: &str, outcome: Option<&str>) -> AuditPayload {
    AuditPayload {
        action: Some(action.to_string()),
        actor_user_id: Some(actor.to_string()),
        outcome: outcome.map(|o| o.to_string()),
        target_type: None,
        target_id: None,
        request_method: None,
        request_path: None,
        request_id: None,
        metadata: None,
    }
}

fn append_at(
    events: Vec<AuditEvent>,
    p: &AuditPayload,
    n: usize,
    retention: Option<usize>,
) -> (Vec<AuditEvent>, AuditEvent) {
    let ts = format!("2024-01-01T00:00:{:02}.{:03}Z", n / 1000, n % 1000);
    append_event(events, "space-1", p, format!("audit-{n}"), ts, retention).unwrap()
}

fn text(e: &AuditEvent, key: &str) -> String {
    e.text_member(key).unwrap()
}

#[test]
fn retention_limit_is_clamped() {
    assert_eq!(normalize_retention_limit(None), 5000);
    assert_eq!(normalize_retention_limit(Some(5)), 100);
    assert_eq!(normalize_retention_limit(Some(60000)), 50000);
    assert_eq!(normalize_retention_limit(Some(1234)), 1234);
}

#[test]
fn outcome_is_normalized() {
    assert_eq!(normalize_outcome(Some("  DENY ")), "deny");
    assert_eq!(normalize_outcome(Some("Error")), "error");
    assert_eq!(normalize_outcome(Some("maybe")), "success");
    assert_eq!(normalize_outcome(None), "success");
}

#[test]
fn space_ids_are_validated() {
    assert_eq!(validate_space_id("  abc_1.x-y ").unwrap(), "abc_1.x-y");
    assert_eq!(validate_space_id("   "), Err(AuditError::InvalidArgument));
    assert_eq!(validate_space_id("-abc"), Err(AuditError::InvalidArgument));
    assert_eq!(validate_space_id("a/b"), Err(AuditError::InvalidArgument));
    let longest = "a".repeat(128);
    assert_eq!(validate_space_id(&longest).unwrap(), longest);
    assert_eq!(validate_space_id(&"a".repeat(129)), Err(AuditError::InvalidArgument));
}

#[test]
fn ledger_path_layout() {
    assert_eq!(audit_file_path("s1"), "spaces/s1/audit/events.jsonl");
}

#[test]
fn appended_chain_links_each_event() {
    let p = payload("login", "u1", Some("success"));
    let mut events = Vec::new();
    let mut last_hash = "root".to_string();
    for n in 0..5 {
        let (next, ev) = append_at(events, &p, n, None);
        assert_eq!(text(&ev, "prev_hash"), last_hash);
        last_hash = text(&ev, "event_hash");
        events = next;
    }
    assert_eq!(events.len(), 5);
    assert_eq!(verify_chain(&events), Ok(()));
    assert_eq!(text(&events[0], "prev_hash"), "root");
}

#[test]
fn event_hash_matches_serde_encoding() {
    let mut p = payload(" login ", " u1 ", Some("DENY"));
    p.request_id = Some(JsonField::Raw("42".to_string()));
    p.metadata = Some("{\"k\":\"v\"}".to_string());
    let (_, ev) = append_at(Vec::new(), &p, 7, None);
    let value: serde_json::Value = serde_json::from_str(&event_json(&ev)).unwrap();
    assert_eq!(value["action"], "login");
    assert_eq!(value["actor_user_id"], "u1");
    assert_eq!(value["outcome"], "deny");
    assert_eq!(value["request_id"], 42);
    assert_eq!(value["target_id"], serde_json::Value::Null);
    assert_eq!(value["metadata"]["k"], "v");
    assert_eq!(value["space_id"], "space-1");
    let mut body = value.clone();
    body.as_object_mut().unwrap().remove("event_hash");
    let material = format!("root:{}", serde_json::to_string(&body).unwrap());
    let expected = hex::encode(sha2::Sha256::digest(material.as_bytes()));
    assert_eq!(text(&ev, "event_hash"), expected);
    assert_eq!(event_json(&ev), serde_json::to_string(&value).unwrap());
}

#[test]
fn retention_trims_and_reroots() {
    let p = payload("login", "u1", None);
    let mut events = Vec::new();
    let mut last = None;
    for n in 0..101 {
        let (next, ev) = append_at(events, &p, n, Some(100));
        events = next;
        last = Some(ev);
    }
    assert_eq!(events.len(), 100);
    assert_eq!(text(&events[0], "prev_hash"), "root");
    assert_eq!(text(&events[0], "id"), "audit-1");
    assert_eq!(verify_chain(&events), Ok(()));
    let last = last.unwrap();
    assert_eq!(text(&last, "event_hash"), text(&events[99], "event_hash"));
}

#[test]
fn verify_is_repeatable() {
    let p = payload("login", "u1", None);
    let (events, _) = append_at(Vec::new(), &p, 1, None);
    let (events, _) = append_at(events, &p, 2, None);
    let first = verify_chain(&events);
    let second = verify_chain(&events);
    assert_eq!(first, Ok(()));
    assert_eq!(first, second);
    assert_eq!(events.len(), 2);
}

#[test]
fn tampering_is_detected() {
    let p = payload("login", "u1", None);
    let (events, _) = append_at(Vec::new(), &p, 1, None);
    let (events, _) = append_at(events, &p, 2, None);
    for key in ["action", "timestamp", "prev_hash", "event_hash", "outcome"] {
        let mut tampered: Vec<AuditEvent> = events.clone();
        for f in tampered[0].fields.iter_mut() {
            if f.key == key {
                f.value = JsonField::Text("tampered".to_string());
            }
        }
        assert_eq!(verify_chain(&tampered), Err(AuditError::IntegrityViolation), "{key}");
    }
}

#[test]
fn append_requires_action_and_actor() {
    let events = Vec::new();
    let p = payload("   ", "u1", None);
    let r = append_event(events, "space-1", &p, "a".into(), "t".into(), None);
    assert!(matches!(r, Err(AuditError::InvalidArgument)));
    let p = payload("login", "", None);
    let r = append_event(Vec::new(), "space-1", &p, "a".into(), "t".into(), None);
    assert!(matches!(r, Err(AuditError::InvalidArgument)));
    let p = payload("login", "u1", None);
    let r = append_event(Vec::new(), "bad id", &p, "a".into(), "t".into(), None);
    assert!(matches!(r, Err(AuditError::InvalidArgument)));
}

#[test]
fn append_refuses_broken_chain() {
    let p = payload("login", "u1", None);
    let (mut events, _) = append_at(Vec::new(), &p, 1, None);
    events[0].fields[0].value = JsonField::Text("other".to_string());
    let r = append_event(events, "space-1", &p, "a".into(), "t".into(), None);
    assert!(matches!(r, Err(AuditError::IntegrityViolation)));
}

#[test]
fn record_event_stamps_id_and_time() {
    let p = payload("login", "u1", None);
    let (events, ev) = record_event(Vec::new(), "space-1", &p, None).unwrap();
    assert!(text(&ev, "id").starts_with("audit-"));
    assert_eq!(text(&ev, "id").len(), 6 + 32);
    assert_eq!(text(&ev, "timestamp").len(), 24);
    assert_eq!(verify_chain(&events), Ok(()));
}

#[test]
fn list_filters_sorts_and_pages() {
    let mut events = Vec::new();
    let specs = [
        ("login", "u1", "success"),
        ("logout", "u1", "success"),
        ("login", "u2", "deny"),
        ("login", "u2", "success"),
        ("login", "u1", "success"),
    ];
    for (n, (a, u, o)) in specs.iter().enumerate() {
        let (next, _) = append_at(events, &payload(a, u, Some(o)), n, None);
        events = next;
    }
    let options = AuditListOptions {
        offset: 0,
        limit: 2,
        action: Some(" login ".to_string()),
        actor_user_id: None,
        outcome: Some("SUCCESS".to_string()),
    };
    let page = list_events(&events, &options).unwrap();
    assert_eq!(page.total, 3);
    assert_eq!(page.limit, 2);
    assert_eq!(page.offset, 0);
    assert_eq!(page.items.len(), 2);
    assert_eq!(text(&page.items[0], "id"), "audit-4");
    assert_eq!(text(&page.items[1], "id"), "audit-3");
    for item in &page.items {
        assert_eq!(text(item, "action"), "login");
        assert_eq!(text(item, "outcome"), "success");
    }
    let rest = list_events(&events, &AuditListOptions { offset: 2, ..options.clone() }).unwrap();
    assert_eq!(rest.items.len(), 1);
    assert_eq!(text(&rest.items[0], "id"), "audit-0");
    let all = list_events(&events, &AuditListOptions::default()).unwrap();
    assert_eq!(all.total, 5);
    assert_eq!(all.limit, 100);
    let clamped = list_events(&events, &AuditListOptions { limit: 0, ..AuditListOptions::default() });
    assert_eq!(clamped.unwrap().limit, 1);
    let big = list_events(&events, &AuditListOptions { limit: 9999, ..AuditListOptions::default() });
    assert_eq!(big.unwrap().limit, 500);
    let far = list_events(&events, &AuditListOptions { offset: 50, ..AuditListOptions::default() });
    assert_eq!(far.unwrap().items.len(), 0);
}

#[test]
fn list_refuses_broken_chain() {
    let p = payload("login", "u1", None);
    let (mut events, _) = append_at(Vec::new(), &p, 1, None);
    events[0].fields.pop();
    assert!(matches!(
        list_events(&events, &AuditListOptions::default()),
        Err(AuditError::IntegrityViolation)
    ));
}

#[test]
fn ledger_file_round_trip() {
    assert_eq!(ledger_text(&[]), "");
    let p = payload("login", "u1", None);
    let (events, _) = append_at(Vec::new(), &p, 1, None);
    let (events, _) = append_at(events, &p, 2, None);
    let text_form = ledger_text(&events);
    assert!(text_form.ends_with('\n'));
    assert_eq!(text_form.lines().count(), 2);
    let with_blanks = format!("\n{}\n  \n", text_form);
    let back = parse_ledger(&with_blanks).unwrap();
    assert_eq!(back.len(), 2);
    assert_eq!(verify_chain(&back), Ok(()));
    assert_eq!(ledger_text(&back), text_form);
}

#[test]
fn malformed_ledger_lines_fail() {
    assert!(matches!(parse_ledger("{not json}\n"), Err(AuditError::MalformedLog)));
    assert!(matches!(parse_ledger("[1,2]\n"), Err(AuditError::MalformedLog)));
    assert_eq!(parse_ledger("").unwrap().len(), 0);
}

#[test]
fn rehash_reroots_a_suffix() {
    let p = payload("login", "u1", None);
    let (events, _) = append_at(Vec::new(), &p, 1, None);
    let (mut events, _) = append_at(events, &p, 2, None);
    let mut tail = events.split_off(1);
    assert!(verify_chain(&tail).is_err());
    rehash_chain(&mut tail);
    assert_eq!(verify_chain(&tail), Ok(()));
    assert_eq!(text(&tail[0], "prev_hash"), "root");
}

#[test]
fn payload_read_from_json() {
    let v = parse_json(
        r#"{"action":"login","actor_user_id":"u1","outcome":7,"metadata":[1],"target_id":"t","request_id":{"a":1}}"#,
    )
    .unwrap();
    let p = payload_from_json(&v).unwrap();
    assert_eq!(p.action.as_deref(), Some("login"));
    assert_eq!(p.outcome, None);
    assert_eq!(p.metadata, None);
    assert!(matches!(p.target_id, Some(JsonField::Text(ref t)) if t == "t"));
    assert!(matches!(p.request_id, Some(JsonField::Raw(ref t)) if t == r#"{"a":1}"#));
    assert!(p.request_method.is_none());
    let with_meta = parse_json(r#"{"metadata":{"k":[1, 2]}}"#).unwrap();
    assert_eq!(payload_from_json(&with_meta).unwrap().metadata.as_deref(), Some(r#"{"k":[1,2]}"#));
    let not_object = parse_json("[1]").unwrap();
    assert!(payload_from_json(&not_object).is_none());
}

#[test]
fn list_options_read_from_json() {
    let v = parse_json(r#"{"offset":3,"limit":7,"action":"login","outcome":1}"#).unwrap();
    let o = list_options_from_json(Some(&v));
    assert_eq!(o.offset, 3);
    assert_eq!(o.limit, 7);
    assert_eq!(o.action.as_deref(), Some("login"));
    assert_eq!(o.outcome, None);
    let d = list_options_from_json(None);
    assert_eq!((d.offset, d.limit), (0, 100));
    let neg = parse_json(r#"{"offset":-1,"limit":2.5}"#).unwrap();
    assert_eq!(list_options_from_json(Some(&neg)).offset, 0);
    assert_eq!(list_options_from_json(Some(&neg)).limit, 100);
}

#[test]
fn first_event_needs_a_prev_hash() {
    let p = payload("login", "u1", None);
    let (mut events, _) = append_at(Vec::new(), &p, 1, None);
    events[0].fields.retain(|f| f.key != "prev_hash");
    assert_eq!(verify_chain(&events), Err(AuditError::IntegrityViolation));
    let mut numeric: Vec<AuditEvent> = append_at(Vec::new(), &p, 1, None).0;
    for f in numeric[0].fields.iter_mut() {
        if f.key == "prev_hash" {
            f.value = JsonField::Raw("7".to_string());
        }
    }
    assert_eq!(verify_chain(&numeric), Err(AuditError::IntegrityViolation));
}

#[test]
fn ledger_reads_back_exactly() {
    let p = payload("login", "u1", Some("deny"));
    let (events, _) = append_at(Vec::new(), &p, 1, None);
    let text_form = ledger_text(&events);
    let back = parse_ledger(&text_form).unwrap();
    assert_eq!(back.len(), 1);
    assert_eq!(back[0].fields.len(), events[0].fields.len());
    for (a, b) in back[0].fields.iter().zip(events[0].fields.iter()) {
        assert_eq!(a.key, b.key);
        assert_eq!(format!("{:?}", a.value), format!("{:?}", b.value));
    }
    let bad = format!("{}7\n", text_form);
    assert!(matches!(parse_ledger(&bad), Err(AuditError::MalformedLog)));
}

#[test]
fn string_quoting_matches_serde() {

    for s in ["plain", "q\"b\\s", "\u{8}\u{c}\n\r\t", "\u{1}\u{1f}\u{7f}", "é✓"] {
        assert_eq!(json_quote(s), serde_json::to_string(s).unwrap());
    }
}
