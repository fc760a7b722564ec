use yaaw::conf::TargetInfo;
use yaaw::driver::{process_target, query_and_validate, target_statuses};
use yaaw::feed::{GlobalCompileData, RawFeedEntry};
use yaaw::yaaw::YelledAboutAndWhen;

const ENDPOINT: &str = "https://discord.com/api/webhooks/12345/token";
const REVISION: &str = "2024-01-01T00:00:00+0000";
const REVISION_EPOCH: u64 = 1_704_067_200;

fn cfg_watching_manic(ping: Option<&str>) -> TargetInfo {
    TargetInfo::new(
        None,
        ENDPOINT.to_string(),
        24,
        vec!["manic".to_string()],
        ping.map(|p| p.to_string()),
    )
    .expect("valid configuration")
}

fn feed_with(entries: Vec<RawFeedEntry>) -> GlobalCompileData {
    GlobalCompileData::from_feed(entries).expect("well-formed feed")
}

fn manic_entry(revision_date: Option<&str>, round_duration: Option<u64>) -> RawFeedEntry {
    RawFeedEntry {
        db_name: Some("manic".to_string()),
        revision_date: revision_date.map(|s| s.to_string()),
        round_duration,
        error: false,
    }
}

#[test]
fn stale_server_fires_one_alert_and_one_entry() {
    // Last updated 30 hours ago against a 24-hour threshold, empty ledger.
    let cfg = cfg_watching_manic(None);
    let feed = feed_with(vec![manic_entry(Some(REVISION), None)]);
    let now = REVISION_EPOCH + 30 * 3600;
    let statuses = target_statuses(&feed, &cfg);
    let mut ledger: Vec<YelledAboutAndWhen> = Vec::new();
    let msgs = process_target(&cfg, &statuses, &mut ledger, now);
    assert_eq!(msgs.len(), 1);
    assert_eq!(
        msgs[0],
        format!(
            "`manic` failed validation.\nServer has not updated in `24` hours; \
             last updated at epoch `{REVISION_EPOCH}` (30h ago).\nThis error will \
             not repeat until the server updates or 24 hours have passed."
        )
    );
    assert_eq!(ledger.len(), 1);
    assert_eq!(ledger[0].webhook(), ENDPOINT);
    assert_eq!(ledger[0].server(), "manic");
    assert_eq!(ledger[0].when(), now);
}

#[test]
fn rerun_within_cooldown_is_suppressed() {
    // Same condition one hour later: no alert, ledger unchanged.
    let cfg = cfg_watching_manic(None);
    let feed = feed_with(vec![manic_entry(Some(REVISION), None)]);
    let first_now = REVISION_EPOCH + 30 * 3600;
    let mut ledger = vec![YelledAboutAndWhen::new(ENDPOINT, "manic", first_now)];
    let statuses = target_statuses(&feed, &cfg);
    let msgs = process_target(&cfg, &statuses, &mut ledger, first_now + 3600);
    assert!(msgs.is_empty());
    assert_eq!(ledger.len(), 1);
    assert_eq!(ledger[0].when(), first_now);
}

#[test]
fn fresh_revision_is_okay_and_stale_entry_is_left_alone() {
    // The server updated five minutes ago: no alert, and the old ledger
    // entry stays as it is until the pair would alert again.
    let cfg = cfg_watching_manic(None);
    let feed = feed_with(vec![manic_entry(Some(REVISION), None)]);
    let now = REVISION_EPOCH + 300;
    let old_entry_time = REVISION_EPOCH - 1000;
    let mut ledger = vec![YelledAboutAndWhen::new(ENDPOINT, "manic", old_entry_time)];
    let statuses = target_statuses(&feed, &cfg);
    let msgs = process_target(&cfg, &statuses, &mut ledger, now);
    assert!(msgs.is_empty());
    assert_eq!(ledger.len(), 1);
    assert_eq!(ledger[0].when(), old_entry_time);
}

#[test]
fn watched_server_absent_from_feed_changes_nothing() {
    let cfg = cfg_watching_manic(None);
    let feed = feed_with(vec![RawFeedEntry {
        db_name: Some("terry".to_string()),
        revision_date: Some(REVISION.to_string()),
        round_duration: None,
        error: false,
    }]);
    let statuses = target_statuses(&feed, &cfg);
    assert_eq!(statuses.len(), 1);
    assert!(statuses[0].is_none());
    let mut ledger: Vec<YelledAboutAndWhen> = Vec::new();
    let msgs = process_target(&cfg, &statuses, &mut ledger, REVISION_EPOCH + 100 * 3600);
    assert!(msgs.is_empty());
    assert!(ledger.is_empty());
}

#[test]
fn extended_round_fires_nothing_even_when_stale() {
    let cfg = cfg_watching_manic(None);
    let feed = feed_with(vec![manic_entry(Some(REVISION), Some(80000))]);
    let statuses = target_statuses(&feed, &cfg);
    let mut ledger: Vec<YelledAboutAndWhen> = Vec::new();
    let msgs = process_target(&cfg, &statuses, &mut ledger, REVISION_EPOCH + 100 * 3600);
    assert!(msgs.is_empty());
    assert!(ledger.is_empty());
}

#[test]
fn missing_revision_date_alerts_with_mention() {
    let cfg = cfg_watching_manic(Some("777"));
    let feed = feed_with(vec![manic_entry(None, None)]);
    let now = 1_700_000_000;
    let statuses = target_statuses(&feed, &cfg);
    let mut ledger: Vec<YelledAboutAndWhen> = Vec::new();
    let msgs = process_target(&cfg, &statuses, &mut ledger, now);
    assert_eq!(msgs.len(), 1);
    assert_eq!(
        msgs[0],
        "<@&777>\n`manic` failed validation.\nRevision date was not provided. \
         This is a misconfiguration of the server..\nThis error will not repeat \
         until the server updates or 24 hours have passed."
    );
    assert_eq!(ledger.len(), 1);
    assert_eq!(ledger[0].when(), now);
}

#[test]
fn whole_step_alerts_once_and_then_suppresses() {
    let cfg = cfg_watching_manic(None);
    let feed = feed_with(vec![manic_entry(Some(REVISION), None)]);
    let now = REVISION_EPOCH + 30 * 3600;
    let mut ledger: Vec<YelledAboutAndWhen> = Vec::new();
    let msgs = query_and_validate(&feed, &cfg, &mut ledger, now);
    assert_eq!(msgs.len(), 1);
    assert_eq!(ledger.len(), 1);
    let msgs = query_and_validate(&feed, &cfg, &mut ledger, now + 3600);
    assert!(msgs.is_empty());
    assert_eq!(ledger.len(), 1);
    assert_eq!(ledger[0].when(), now);
}

#[test]
fn erroneous_feed_entries_are_dropped() {
    let feed = feed_with(vec![
        RawFeedEntry {
            db_name: None,
            revision_date: None,
            round_duration: None,
            error: true,
        },
        manic_entry(Some(REVISION), None),
    ]);
    assert_eq!(feed.len(), 1);
    assert!(feed.lookup("manic").is_some());
    assert!(feed.lookup("terry").is_none());
}

#[test]
fn kept_entry_without_name_is_fatal() {
    let raw = vec![RawFeedEntry {
        db_name: None,
        revision_date: Some(REVISION.to_string()),
        round_duration: None,
        error: false,
    }];
    assert!(GlobalCompileData::from_feed(raw).is_none());
}

#[test]
fn empty_revision_date_is_normalized_to_missing() {
    let feed = feed_with(vec![manic_entry(Some(""), None)]);
    let scd = feed.lookup("manic").expect("listed");
    assert!(scd.revision_timestamp().is_err());
}
