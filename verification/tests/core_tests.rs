use yaaw::codec::{decode_ledger, encode_ledger};
use yaaw::conf::{ConfigError, TargetInfo, MAX_STALE_AFTER_HOURS};
use yaaw::digits::u64_to_dec_string;
use yaaw::evaluator::{evaluate, Outcome, StatusRecord};
use yaaw::feed::ServerCompileData;
use yaaw::yaaw::{record_alert, should_suppress, webhook_url_to_id, YelledAboutAndWhen};

fn stale_record(ts: u64) -> StatusRecord {
    StatusRecord { revision_timestamp: Ok(ts), is_extended_round: false }
}

#[test]
fn extended_round_always_skips() {
    let record = StatusRecord { revision_timestamp: Ok(100), is_extended_round: true };
    assert!(matches!(evaluate(&record, 24, 1_000_000), Outcome::Skip));
    let record = StatusRecord {
        revision_timestamp: Err("broken".to_string()),
        is_extended_round: true,
    };
    assert!(matches!(evaluate(&record, 1, 0), Outcome::Skip));
}

#[test]
fn missing_timestamp_is_invalid_with_reason() {
    let scd = ServerCompileData::new(None, None);
    let record = StatusRecord::from_compile_data(&scd);
    match evaluate(&record, 24, 1_000_000) {
        Outcome::Invalid(reason) => assert!(!reason.is_empty()),
        _ => panic!("expected Invalid"),
    }
}

#[test]
fn empty_timestamp_is_invalid_with_reason() {
    let scd = ServerCompileData::new(Some(String::new()), None);
    let record = StatusRecord::from_compile_data(&scd);
    match evaluate(&record, 24, 1_000_000) {
        Outcome::Invalid(reason) => {
            assert_eq!(
                reason,
                "Revision date was not provided. This is a misconfiguration of the server."
            );
        }
        _ => panic!("expected Invalid"),
    }
}

#[test]
fn unparseable_timestamp_is_invalid_with_reason() {
    let scd = ServerCompileData::new(Some("not-a-date".to_string()), None);
    let record = StatusRecord::from_compile_data(&scd);
    match evaluate(&record, 24, 1_000_000) {
        Outcome::Invalid(reason) => assert!(!reason.is_empty()),
        _ => panic!("expected Invalid"),
    }
}

#[test]
fn parses_known_revision_date() {
    let scd = ServerCompileData::new(Some("2024-01-01T00:00:00+0000".to_string()), None);
    assert_eq!(scd.revision_timestamp(), Ok(1_704_067_200));
}

#[test]
fn parses_revision_date_with_offset() {
    // 01:00 at +01:00 is midnight UTC.
    let scd = ServerCompileData::new(Some("2024-01-01T01:00:00+0100".to_string()), None);
    assert_eq!(scd.revision_timestamp(), Ok(1_704_067_200));
}

#[test]
fn stale_exactly_above_threshold() {
    let ts = 1_704_067_200u64;
    // Boundary: exactly threshold * 3600 seconds elapsed stays Okay.
    let record = stale_record(ts);
    assert!(matches!(evaluate(&record, 24, ts + 24 * 3600), Outcome::Okay));
    // One second past the boundary is Stale.
    match evaluate(&record, 24, ts + 24 * 3600 + 1) {
        Outcome::Stale { elapsed_hours, revision_timestamp } => {
            assert_eq!(elapsed_hours, 24);
            assert_eq!(revision_timestamp, ts);
        }
        _ => panic!("expected Stale"),
    }
}

#[test]
fn future_timestamp_is_okay() {
    let record = stale_record(2_000_000_000);
    assert!(matches!(evaluate(&record, 24, 1_000_000_000), Outcome::Okay));
}

#[test]
fn extended_round_boundary() {
    // 72000 tenths of a second (exactly two hours) is not yet extended.
    let scd = ServerCompileData::new(None, Some(72000));
    assert!(!scd.is_extended_round());
    let scd = ServerCompileData::new(None, Some(72001));
    assert!(scd.is_extended_round());
    let scd = ServerCompileData::new(None, None);
    assert!(!scd.is_extended_round());
}

#[test]
fn suppress_empty_ledger_is_false() {
    let entries: Vec<YelledAboutAndWhen> = Vec::new();
    assert!(!should_suppress(&entries, "manic", 1_000_000, 86400));
}

#[test]
fn suppress_iff_within_cooldown() {
    let entries = vec![YelledAboutAndWhen::new("https://h/api/webhooks/1/t", "manic", 1000)];
    assert!(should_suppress(&entries, "manic", 1000 + 86399, 86400));
    assert!(!should_suppress(&entries, "manic", 1000 + 86400, 86400));
    assert!(!should_suppress(&entries, "other", 1000, 86400));
}

#[test]
fn record_then_suppress_same_instant() {
    let mut entries: Vec<YelledAboutAndWhen> = Vec::new();
    record_alert(&mut entries, "https://h/api/webhooks/1/t", "manic", 5000);
    assert!(should_suppress(&entries, "manic", 5000, 86400));
}

#[test]
fn record_after_cooldown_replaces_entry() {
    let mut entries: Vec<YelledAboutAndWhen> = Vec::new();
    record_alert(&mut entries, "https://h/api/webhooks/1/t", "manic", 1000);
    assert_eq!(entries.len(), 1);
    let later = 1000 + 86400;
    assert!(!should_suppress(&entries, "manic", later, 86400));
    record_alert(&mut entries, "https://h/api/webhooks/1/t", "manic", later);
    assert_eq!(entries.len(), 1);
    assert_eq!(entries[0].when(), later);
    assert_eq!(entries[0].server(), "manic");
    assert_eq!(entries[0].webhook(), "https://h/api/webhooks/1/t");
}

#[test]
fn decimal_rendering_exact() {
    assert_eq!(u64_to_dec_string(0), "0");
    assert_eq!(u64_to_dec_string(7), "7");
    assert_eq!(u64_to_dec_string(86400), "86400");
    assert_eq!(u64_to_dec_string(u64::MAX), "18446744073709551615");
}

#[test]
fn encode_ledger_exact_text() {
    let entries = vec![YelledAboutAndWhen::new("w/x", "srv", 42)];
    assert_eq!(encode_ledger(&entries), "3:w/x3:srv42;");
}

#[test]
fn ledger_round_trip() {
    let entries = vec![
        YelledAboutAndWhen::new("https://h/api/webhooks/1/t", "manic", 1_700_000_000),
        YelledAboutAndWhen::new("https://h/api/webhooks/1/t", "terry", 0),
        YelledAboutAndWhen::new("https://h/api/webhooks/1/t", "sybil:3;x", u64::MAX),
    ];
    let text = encode_ledger(&entries);
    let back = decode_ledger(&text).expect("round trip must decode");
    assert_eq!(back.len(), entries.len());
    for (a, b) in entries.iter().zip(back.iter()) {
        assert_eq!(a.webhook(), b.webhook());
        assert_eq!(a.server(), b.server());
        assert_eq!(a.when(), b.when());
    }
}

#[test]
fn empty_text_decodes_to_empty_ledger() {
    let back = decode_ledger("").expect("empty text is an empty ledger");
    assert!(back.is_empty());
}

#[test]
fn corrupt_text_is_rejected() {
    assert!(decode_ledger("garbage").is_none());
    assert!(decode_ledger("3:w/x3:srv42").is_none());
    assert!(decode_ledger("03:w/x3:srv42;").is_none());
    assert!(decode_ledger("9:w/x3:srv42;").is_none());
    assert!(decode_ledger("3:w/x3:srv42;junk").is_none());
}

#[test]
fn webhook_id_is_next_to_last_part() {
    assert_eq!(
        webhook_url_to_id("https://discord.com/api/webhooks/12345/token"),
        "12345"
    );
    assert_eq!(webhook_url_to_id("a/b/c"), "b");
    assert_eq!(webhook_url_to_id("only/one"), "only");
}

#[test]
fn target_info_validation() {
    let ok = TargetInfo::new(
        None,
        "https://h/api/webhooks/1/t".to_string(),
        24,
        vec!["manic".to_string()],
        None,
    );
    let cfg = match ok {
        Ok(cfg) => cfg,
        Err(_) => panic!("valid configuration refused"),
    };
    assert_eq!(cfg.webhook_url(), "https://h/api/webhooks/1/t");
    assert_eq!(cfg.error_revision_date_unchanged_for_hours(), 24);
    assert_eq!(cfg.target_servers(), &vec!["manic".to_string()]);
    assert!(cfg.ping_role_id().is_none());
    assert!(cfg.name_override().is_none());

    let e = TargetInfo::new(None, String::new(), 24, vec!["manic".to_string()], None);
    assert!(matches!(e, Err(ConfigError::EmptyWebhookUrl)));

    let e = TargetInfo::new(None, "https://h/1/t".to_string(), 24, Vec::new(), None);
    assert!(matches!(e, Err(ConfigError::NoTargetServers)));

    let e = TargetInfo::new(None, "https://h/1/t".to_string(), 0, vec!["m".to_string()], None);
    assert!(matches!(e, Err(ConfigError::ZeroStaleThreshold)));

    let e = TargetInfo::new(
        None,
        "https://h/1/t".to_string(),
        MAX_STALE_AFTER_HOURS + 1,
        vec!["m".to_string()],
        None,
    );
    assert!(matches!(e, Err(ConfigError::StaleThresholdTooLarge)));
}
