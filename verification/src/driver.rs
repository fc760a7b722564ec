//! One monitoring step for one target: evaluate every watched server against
//! the fetched feed, gate alerts through the ledger, and compose the messages
//! to deliver.

use vstd::prelude::*;

use crate::conf::TargetInfo;
use crate::digits::{spec_dec, u64_to_dec_string};
use crate::evaluator::{
    evaluate, spec_evaluate, status_matches, Outcome, OutcomeView, StatusRecord, StatusRecordView,
};
use crate::feed::{spec_lookup, GlobalCompileData, ServerCompileDataView};
use crate::yaaw::{
    ledger_wf, record_alert, should_suppress, spec_record_alert, spec_should_suppress,
    lemma_record_alert_preserves_wf, EntryView, YelledAboutAndWhen, COOLDOWN_SECONDS,
};

verus! {

/// The reason text for a stale server.
pub open spec fn spec_stale_reason(threshold_hours: u64, ts: u64, elapsed_hours: u64) -> Seq<
    char,
> {
    "Server has not updated in `"@ + spec_dec(threshold_hours as nat)
        + "` hours; last updated at epoch `"@ + spec_dec(ts as nat) + "` ("@ + spec_dec(
        elapsed_hours as nat,
    ) + "h ago)"@
}

/// The full alert text: the optional role mention, then the server, the
/// reason, and the note about the cooldown.
pub open spec fn spec_alert_message(
    server: Seq<char>,
    reason: Seq<char>,
    ping: Option<Seq<char>>,
) -> Seq<char> {
    let base = "`"@ + server + "` failed validation.\n"@ + reason
        + ".\nThis error will not repeat until the server updates or 24 hours have passed."@;
    match ping {
        Some(p) => "<@&"@ + p + ">\n"@ + base,
        None => base,
    }
}

fn compose_stale_reason(threshold_hours: u64, ts: u64, elapsed_hours: u64) -> (r: String)
    ensures
        r@ == spec_stale_reason(threshold_hours, ts, elapsed_hours),
{
    let mut r = String::from_str("Server has not updated in `");
    r.append(u64_to_dec_string(threshold_hours).as_str());
    r.append("` hours; last updated at epoch `");
    r.append(u64_to_dec_string(ts).as_str());
    r.append("` (");
    r.append(u64_to_dec_string(elapsed_hours).as_str());
    r.append("h ago)");
    proof {
        assert(r@ =~= spec_stale_reason(threshold_hours, ts, elapsed_hours));
    }
    r
}

fn compose_alert_message(server: &str, reason: &str, ping: Option<&String>) -> (r: String)
    ensures
        r@ == spec_alert_message(
            server@,
            reason@,
            match ping {
                Some(p) => Some(p@),
                None => None,
            },
        ),
{
    let mut r = match ping {
        Some(p) => {
            let mut m = String::from_str("<@&");
            m.append(p.as_str());
            m.append(">\n");
            m
        },
        None => String::new(),
    };
    r.append("`");
    r.append(server);
    r.append("` failed validation.\n");
    r.append(reason);
    r.append(".\nThis error will not repeat until the server updates or 24 hours have passed.");
    proof {
        assert(r@ =~= spec_alert_message(
            server@,
            reason@,
            match ping {
                Some(p) => Some(p@),
                None => None,
            },
        ));
    }
    r
}

/// The ledger and message list after one alert-worthy outcome: nothing
/// changes while the pair is still inside its cooldown window; otherwise the
/// alert is recorded and its message queued.
pub open spec fn spec_alert_step(
    ledger: Seq<EntryView>,
    msgs: Seq<Seq<char>>,
    endpoint: Seq<char>,
    server: Seq<char>,
    reason: Seq<char>,
    ping: Option<Seq<char>>,
    now: u64,
) -> (Seq<EntryView>, Seq<Seq<char>>) {
    if spec_should_suppress(ledger, server, now, COOLDOWN_SECONDS) {
        (ledger, msgs)
    } else {
        (
            spec_record_alert(ledger, endpoint, server, now),
            msgs.push(spec_alert_message(server, reason, ping)),
        )
    }
}

/// The ledger and message list after one whole pass over the watched
/// servers, in configured order: a server absent from the feed changes
/// nothing; Skip and Okay outcomes change nothing; Invalid and Stale
/// outcomes go through `spec_alert_step`.
pub open spec fn spec_process(
    servers: Seq<Seq<char>>,
    statuses: Seq<Option<StatusRecordView>>,
    endpoint: Seq<char>,
    threshold_hours: u64,
    ping: Option<Seq<char>>,
    ledger0: Seq<EntryView>,
    now: u64,
) -> (Seq<EntryView>, Seq<Seq<char>>)
    decreases servers.len(),
{
    if servers.len() == 0 {
        (ledger0, Seq::empty())
    } else {
        let prev = spec_process(
            servers.drop_last(),
            statuses.drop_last(),
            endpoint,
            threshold_hours,
            ping,
            ledger0,
            now,
        );
        let server = servers.last();
        match statuses.last() {
            None => prev,
            Some(st) => match spec_evaluate(st, threshold_hours, now) {
                OutcomeView::Skip => prev,
                OutcomeView::Okay => prev,
                OutcomeView::Invalid(reason) => spec_alert_step(
                    prev.0,
                    prev.1,
                    endpoint,
                    server,
                    reason,
                    ping,
                    now,
                ),
                OutcomeView::Stale { elapsed_hours, revision_timestamp } => spec_alert_step(
                    prev.0,
                    prev.1,
                    endpoint,
                    server,
                    spec_stale_reason(threshold_hours, revision_timestamp, elapsed_hours),
                    ping,
                    now,
                ),
            },
        }
    }
}

/// Whether a looked-up observation and a built status record correspond.
pub open spec fn status_option_matches(
    scd: Option<ServerCompileDataView>,
    st: Option<StatusRecordView>,
) -> bool {
    match scd {
        None => st is None,
        Some(c) => match st {
            Some(s) => status_matches(c, s),
            None => false,
        },
    }
}

/// Reads, for every watched server of the target in configured order, its
/// status out of the feed: `None` where the feed does not list the server.
pub fn target_statuses(feed: &GlobalCompileData, cfg: &TargetInfo) -> (r: Vec<
    Option<StatusRecord>,
>)
    ensures
        r.deep_view().len() == cfg@.target_servers.len(),
        forall|i: int|
            0 <= i < cfg@.target_servers.len() ==> status_option_matches(
                spec_lookup(feed@, cfg@.target_servers[i]),
                #[trigger] r.deep_view()[i],
            ),
{
    let servers = cfg.target_servers();
    let n = servers.len();
    let mut r: Vec<Option<StatusRecord>> = Vec::new();
    let mut i: usize = 0;
    while i < n
        invariant
            0 <= i <= n,
            n == cfg@.target_servers.len(),
            servers.deep_view() == cfg@.target_servers,
            r.deep_view().len() == i,
            forall|k: int|
                0 <= k < i ==> status_option_matches(
                    spec_lookup(feed@, cfg@.target_servers[k]),
                    #[trigger] r.deep_view()[k],
                ),
        decreases n - i,
    {
        proof {
            assert(servers.deep_view()[i as int] == servers[i as int]@);
        }
        let ghost r0 = r.deep_view();
        let st = match feed.lookup(servers[i].as_str()) {
            Some(scd) => Some(StatusRecord::from_compile_data(scd)),
            None => None,
        };
        r.push(st);
        proof {
            assert(r.deep_view() =~= r0.push(
                match st {
                    Some(ref rec) => Some(rec@),
                    None => None,
                },
            ));
        }
        i = i + 1;
    }
    r
}

/// Records one alert-worthy outcome, exactly as `spec_alert_step` describes:
/// suppressed inside the cooldown window, otherwise recorded in the ledger
/// with its message queued for delivery.
fn alert_step(
    cfg: &TargetInfo,
    server: &str,
    reason: &str,
    entries: &mut Vec<YelledAboutAndWhen>,
    msgs: &mut Vec<String>,
    now: u64,
)
    ensures
        (final(entries).deep_view(), final(msgs).deep_view()) == spec_alert_step(
            old(entries).deep_view(),
            old(msgs).deep_view(),
            cfg@.webhook_url,
            server@,
            reason@,
            cfg@.ping_role_id,
            now,
        ),
{
    if !should_suppress(entries, server, now, COOLDOWN_SECONDS) {
        let msg = compose_alert_message(server, reason, cfg.ping_role_id());
        record_alert(entries, cfg.webhook_url(), server, now);
        let ghost m0 = msgs.deep_view();
        msgs.push(msg);
        proof {
            assert(msgs.deep_view() =~= m0.push(
                spec_alert_message(server@, reason@, cfg@.ping_role_id),
            ));
        }
    }
}

/// One monitoring pass for one target, exactly as `spec_process` describes:
/// walks the watched servers in configured order with their statuses,
/// updates the ledger partition in place, and returns the alert messages to
/// deliver, in order.
pub fn process_target(
    cfg: &TargetInfo,
    statuses: &Vec<Option<StatusRecord>>,
    entries: &mut Vec<YelledAboutAndWhen>,
    now: u64,
) -> (msgs: Vec<String>)
    requires
        cfg@.wf(),
        statuses.deep_view().len() == cfg@.target_servers.len(),
    ensures
        (final(entries).deep_view(), msgs.deep_view()) == spec_process(
            cfg@.target_servers,
            statuses.deep_view(),
            cfg@.webhook_url,
            cfg@.error_revision_date_unchanged_for_hours,
            cfg@.ping_role_id,
            old(entries).deep_view(),
            now,
        ),
{
    let servers = cfg.target_servers();
    let n = servers.len();
    let threshold = cfg.error_revision_date_unchanged_for_hours();
    let mut msgs: Vec<String> = Vec::new();
    let mut i: usize = 0;
    proof {
        assert(statuses.deep_view().len() == statuses@.len());
        assert(cfg@.target_servers.take(0) =~= Seq::<Seq<char>>::empty());
        assert(statuses.deep_view().take(0) =~= Seq::<Option<StatusRecordView>>::empty());
        assert(msgs.deep_view() =~= Seq::<Seq<char>>::empty());
    }
    while i < n
        invariant
            0 <= i <= n,
            n == cfg@.target_servers.len(),
            n == statuses@.len(),
            cfg@.wf(),
            threshold == cfg@.error_revision_date_unchanged_for_hours,
            servers.deep_view() == cfg@.target_servers,
            (entries.deep_view(), msgs.deep_view()) == spec_process(
                cfg@.target_servers.take(i as int),
                statuses.deep_view().take(i as int),
                cfg@.webhook_url,
                threshold,
                cfg@.ping_role_id,
                old(entries).deep_view(),
                now,
            ),
        decreases n - i,
    {
        proof {
            assert(servers.deep_view()[i as int] == servers[i as int]@);
            assert(statuses.deep_view()[i as int] == statuses[i as int].deep_view());
            assert(cfg@.target_servers.take(i as int + 1).drop_last() =~= cfg@.target_servers.take(
                i as int,
            ));
            assert(statuses.deep_view().take(i as int + 1).drop_last() =~= statuses.deep_view()
                .take(i as int));
            assert(cfg@.target_servers.take(i as int + 1).last() == cfg@.target_servers[i as int]);
            assert(statuses.deep_view().take(i as int + 1).last() == statuses.deep_view()[
                i as int]);
        }
        let server: &String = &servers[i];
        match &statuses[i] {
            None => {},
            Some(record) => {
                let outcome = evaluate(record, threshold, now);
                match outcome {
                    Outcome::Skip => {},
                    Outcome::Okay => {},
                    Outcome::Invalid(reason) => {
                        alert_step(cfg, server.as_str(), reason.as_str(), entries, &mut msgs, now);
                    },
                    Outcome::Stale { elapsed_hours, revision_timestamp } => {
                        let reason = compose_stale_reason(
                            threshold,
                            revision_timestamp,
                            elapsed_hours,
                        );
                        alert_step(cfg, server.as_str(), reason.as_str(), entries, &mut msgs, now);
                    },
                }
            },
        }
        i = i + 1;
    }
    proof {
        assert(cfg@.target_servers.take(n as int) =~= cfg@.target_servers);
        assert(statuses.deep_view().take(n as int) =~= statuses.deep_view());
    }
    msgs
}

/// One whole monitoring step for one target against a fetched feed: reads
/// the watched servers' statuses out of the feed, then processes them as
/// `spec_process` describes. The status list is pinned down by
/// `status_option_matches` for every watched server.
pub fn query_and_validate(
    feed: &GlobalCompileData,
    cfg: &TargetInfo,
    entries: &mut Vec<YelledAboutAndWhen>,
    now: u64,
) -> (msgs: Vec<String>)
    requires
        cfg@.wf(),
    ensures
        exists|sts: Seq<Option<StatusRecordView>>|
            #![auto]
            {
                &&& sts.len() == cfg@.target_servers.len()
                &&& (forall|i: int|
                    0 <= i < cfg@.target_servers.len() ==> status_option_matches(
                        spec_lookup(feed@, cfg@.target_servers[i]),
                        #[trigger] sts[i],
                    ))
                &&& (final(entries).deep_view(), msgs.deep_view()) == spec_process(
                    cfg@.target_servers,
                    sts,
                    cfg@.webhook_url,
                    cfg@.error_revision_date_unchanged_for_hours,
                    cfg@.ping_role_id,
                    old(entries).deep_view(),
                    now,
                )
            },
{
    let statuses = target_statuses(feed, cfg);
    let msgs = process_target(cfg, &statuses, entries, now);
    proof {
        let sts = statuses.deep_view();
        assert(sts.len() == cfg@.target_servers.len());
    }
    msgs
}

/// Law: a monitoring pass keeps the ledger partition well formed — entries
/// keyed by this endpoint, at most one per server.
pub proof fn lemma_process_preserves_wf(
    servers: Seq<Seq<char>>,
    statuses: Seq<Option<StatusRecordView>>,
    endpoint: Seq<char>,
    threshold_hours: u64,
    ping: Option<Seq<char>>,
    ledger0: Seq<EntryView>,
    now: u64,
)
    requires
        ledger_wf(ledger0, endpoint),
    ensures
        ledger_wf(
            spec_process(servers, statuses, endpoint, threshold_hours, ping, ledger0, now).0,
            endpoint,
        ),
    decreases servers.len(),
{
    if servers.len() > 0 {
        lemma_process_preserves_wf(
            servers.drop_last(),
            statuses.drop_last(),
            endpoint,
            threshold_hours,
            ping,
            ledger0,
            now,
        );
        let prev = spec_process(
            servers.drop_last(),
            statuses.drop_last(),
            endpoint,
            threshold_hours,
            ping,
            ledger0,
            now,
        );
        match statuses.last() {
            None => {},
            Some(st) => match spec_evaluate(st, threshold_hours, now) {
                OutcomeView::Skip => {},
                OutcomeView::Okay => {},
                OutcomeView::Invalid(_) => {
                    if !spec_should_suppress(prev.0, servers.last(), now, COOLDOWN_SECONDS) {
                        lemma_record_alert_preserves_wf(prev.0, endpoint, servers.last(), now);
                    }
                },
                OutcomeView::Stale { .. } => {
                    if !spec_should_suppress(prev.0, servers.last(), now, COOLDOWN_SECONDS) {
                        lemma_record_alert_preserves_wf(prev.0, endpoint, servers.last(), now);
                    }
                },
            },
        }
    }
}

} // verus!
