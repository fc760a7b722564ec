//! The alert ledger: which (endpoint, server) pairs were already alerted
//! about and when, and the cooldown gate that suppresses repeat alerts.

use vstd::prelude::*;

verus! {

/// Minimum time in seconds between repeat alerts for the same pair.
pub const COOLDOWN_SECONDS: u64 = 86400;

/// One ledger entry: an alert went to `webhook` about `server` at `when`
/// (seconds since the Unix epoch).
pub struct YelledAboutAndWhen {
    webhook: String,
    server: String,
    when: u64,
}

/// Mathematical image of a ledger entry.
pub struct EntryView {
    pub webhook: Seq<char>,
    pub server: Seq<char>,
    pub when: u64,
}

impl View for YelledAboutAndWhen {
    type V = EntryView;

    closed spec fn view(&self) -> EntryView {
        EntryView { webhook: self.webhook@, server: self.server@, when: self.when }
    }
}

impl DeepView for YelledAboutAndWhen {
    type V = EntryView;

    open spec fn deep_view(&self) -> EntryView {
        self.view()
    }
}

impl Clone for YelledAboutAndWhen {
    fn clone(&self) -> (r: Self)
        ensures
            r@ == self@,
    {
        YelledAboutAndWhen {
            webhook: self.webhook.clone(),
            server: self.server.clone(),
            when: self.when,
        }
    }
}

impl YelledAboutAndWhen {
    pub fn new(webhook: &str, server: &str, when: u64) -> (r: Self)
        ensures
            r@ == (EntryView { webhook: webhook@, server: server@, when }),
    {
        YelledAboutAndWhen {
            webhook: String::from_str(webhook),
            server: String::from_str(server),
            when,
        }
    }

    /// The endpoint the alert went to.
    pub fn webhook(&self) -> (r: &str)
        ensures
            r@ == self@.webhook,
    {
        self.webhook.as_str()
    }

    /// The server the alert was about.
    pub fn server(&self) -> (r: &str)
        ensures
            r@ == self@.server,
    {
        self.server.as_str()
    }

    /// When the alert fired, in seconds since the Unix epoch.
    pub fn when(&self) -> (r: u64)
        ensures
            r == self@.when,
    {
        self.when
    }
}

/// The ledger invariant for the partition of one endpoint: every entry names
/// that endpoint, and no two entries name the same server.
pub open spec fn ledger_wf(es: Seq<EntryView>, endpoint: Seq<char>) -> bool {
    &&& forall|i: int| 0 <= i < es.len() ==> (#[trigger] es[i]).webhook == endpoint
    &&& forall|i: int, j: int|
        #![trigger es[i], es[j]]
        0 <= i < j < es.len() ==> es[i].server != es[j].server
}

/// Whether `e` blocks a new alert about `server` at time `now`: same server,
/// and the previous alert is younger than the cooldown window.
pub open spec fn entry_live(e: EntryView, server: Seq<char>, now: u64, cooldown: u64) -> bool {
    e.server == server && now - e.when < cooldown
}

/// Whether some entry blocks a new alert about `server` at time `now`.
pub open spec fn spec_should_suppress(
    es: Seq<EntryView>,
    server: Seq<char>,
    now: u64,
    cooldown: u64,
) -> bool {
    exists|i: int| 0 <= i < es.len() && entry_live(#[trigger] es[i], server, now, cooldown)
}

/// The entries of `es` whose server is not `server`, in order.
pub open spec fn spec_remove_server(es: Seq<EntryView>, server: Seq<char>) -> Seq<EntryView>
    decreases es.len(),
{
    if es.len() == 0 {
        Seq::empty()
    } else {
        let rest = spec_remove_server(es.drop_last(), server);
        if es.last().server == server {
            rest
        } else {
            rest.push(es.last())
        }
    }
}

/// The ledger after an alert about `server` fires at `now`: any prior entry
/// for the server is dropped and a fresh one is appended.
pub open spec fn spec_record_alert(
    es: Seq<EntryView>,
    webhook: Seq<char>,
    server: Seq<char>,
    now: u64,
) -> Seq<EntryView> {
    spec_remove_server(es, server).push(EntryView { webhook, server, when: now })
}

/// How many entries of `es` name `server`.
pub open spec fn count_for(es: Seq<EntryView>, server: Seq<char>) -> nat
    decreases es.len(),
{
    if es.len() == 0 {
        0
    } else {
        count_for(es.drop_last(), server) + if es.last().server == server {
            1nat
        } else {
            0nat
        }
    }
}

/// Returns true iff an entry for `server` exists whose alert is younger than
/// `cooldown_seconds`; in particular, always false on an empty ledger.
pub fn should_suppress(
    entries: &Vec<YelledAboutAndWhen>,
    server: &str,
    now: u64,
    cooldown_seconds: u64,
) -> (r: bool)
    ensures
        r == spec_should_suppress(entries.deep_view(), server@, now, cooldown_seconds),
{
    let key = String::from_str(server);
    let n = entries.len();
    let mut i: usize = 0;
    while i < n
        invariant
            0 <= i <= n,
            n == entries@.len(),
            key@ == server@,
            forall|k: int|
                0 <= k < i ==> !entry_live(
                    #[trigger] entries.deep_view()[k],
                    server@,
                    now,
                    cooldown_seconds,
                ),
        decreases n - i,
    {
        let e = &entries[i];
        proof {
            assert(entries.deep_view()[i as int] == entries[i as int]@);
        }
        if e.server == key {
            let live = if e.when > now {
                true
            } else {
                now - e.when < cooldown_seconds
            };
            if live {
                proof {
                    assert(entry_live(entries.deep_view()[i as int], server@, now,
                    cooldown_seconds));
                }
                return true;
            }
        }
        i = i + 1;
    }
    false
}

/// Drops every entry for `server` and appends a fresh one stamped `now`,
/// exactly as `spec_record_alert` describes.
pub fn record_alert(
    entries: &mut Vec<YelledAboutAndWhen>,
    webhook: &str,
    server: &str,
    now: u64,
)
    ensures
        final(entries).deep_view() == spec_record_alert(
            old(entries).deep_view(),
            webhook@,
            server@,
            now,
        ),
{
    let key = String::from_str(server);
    let n = entries.len();
    let mut kept: Vec<YelledAboutAndWhen> = Vec::new();
    let mut i: usize = 0;
    proof {
        assert(old(entries).deep_view().take(0) =~= Seq::<EntryView>::empty());
        assert(kept.deep_view() =~= Seq::<EntryView>::empty());
    }
    while i < n
        invariant
            0 <= i <= n,
            n == entries@.len(),
            entries@ == old(entries)@,
            key@ == server@,
            kept.deep_view() == spec_remove_server(entries.deep_view().take(i as int), server@),
        decreases n - i,
    {
        let e = &entries[i];
        proof {
            assert(entries.deep_view()[i as int] == entries[i as int]@);
            assert(entries.deep_view().take(i as int + 1).drop_last() =~= entries.deep_view()
                .take(i as int));
            assert(entries.deep_view().take(i as int + 1).last() == entries.deep_view()[i as int]);
        }
        if !(e.server == key) {
            let ghost kept0 = kept.deep_view();
            kept.push(e.clone());
            proof {
                assert(kept.deep_view() =~= kept0.push(entries.deep_view()[i as int]));
            }
        }
        i = i + 1;
    }
    proof {
        assert(entries.deep_view().take(n as int) =~= entries.deep_view());
    }
    let ghost kept1 = kept.deep_view();
    kept.push(YelledAboutAndWhen::new(webhook, server, now));
    proof {
        assert(kept.deep_view() =~= kept1.push(
            EntryView { webhook: webhook@, server: server@, when: now },
        ));
    }
    *entries = kept;
}

/// Law: recording an alert and asking again at the same instant is always
/// suppressed, for any positive cooldown.
pub proof fn lemma_record_alert_then_suppress(
    es: Seq<EntryView>,
    webhook: Seq<char>,
    server: Seq<char>,
    now: u64,
    cooldown: u64,
)
    requires
        cooldown > 0,
    ensures
        spec_should_suppress(spec_record_alert(es, webhook, server, now), server, now, cooldown),
{
    let r = spec_record_alert(es, webhook, server, now);
    assert(entry_live(r[r.len() - 1], server, now, cooldown));
}

/// Law: once every entry for `server` is at least a full cooldown old,
/// nothing is suppressed any more.
pub proof fn lemma_cooldown_elapsed_no_suppress(
    es: Seq<EntryView>,
    server: Seq<char>,
    now: u64,
    cooldown: u64,
)
    requires
        forall|i: int|
            0 <= i < es.len() && (#[trigger] es[i]).server == server ==> now - es[i].when
                >= cooldown,
    ensures
        !spec_should_suppress(es, server, now, cooldown),
{
}

proof fn lemma_remove_server_count(es: Seq<EntryView>, server: Seq<char>)
    ensures
        count_for(spec_remove_server(es, server), server) == 0,
    decreases es.len(),
{
    if es.len() > 0 {
        lemma_remove_server_count(es.drop_last(), server);
        if es.last().server != server {
            let rest = spec_remove_server(es.drop_last(), server);
            assert(rest.push(es.last()).drop_last() =~= rest);
        }
    }
}

/// Law: after an alert is recorded, the ledger holds exactly one entry for
/// that server — a re-alert replaces, it never duplicates.
pub proof fn lemma_record_alert_single_entry(
    es: Seq<EntryView>,
    webhook: Seq<char>,
    server: Seq<char>,
    now: u64,
)
    ensures
        count_for(spec_record_alert(es, webhook, server, now), server) == 1,
{
    lemma_remove_server_count(es, server);
    let rest = spec_remove_server(es, server);
    let e = EntryView { webhook, server, when: now };
    assert(rest.push(e).drop_last() =~= rest);
    assert(rest.push(e).last() == e);
}

/// Every entry that survives `spec_remove_server` stood in the original
/// ledger, and none of them names the removed server.
proof fn lemma_remove_server_membership(es: Seq<EntryView>, server: Seq<char>)
    ensures
        spec_remove_server(es, server).len() <= es.len(),
        forall|k: int|
            0 <= k < spec_remove_server(es, server).len() ==> (#[trigger] spec_remove_server(
                es,
                server,
            )[k]).server != server,
        forall|k: int|
            0 <= k < spec_remove_server(es, server).len() ==> exists|j: int|
                0 <= j < es.len() && #[trigger] spec_remove_server(es, server)[k] == es[j],
    decreases es.len(),
{
    if es.len() > 0 {
        lemma_remove_server_membership(es.drop_last(), server);
        let rest = spec_remove_server(es.drop_last(), server);
        let r = spec_remove_server(es, server);
        assert forall|k: int| 0 <= k < r.len() implies exists|j: int|
            0 <= j < es.len() && #[trigger] r[k] == es[j] by {
            if k < rest.len() {
                let j = choose|j: int| 0 <= j < es.drop_last().len() && rest[k] == es.drop_last()[j];
                assert(r[k] == es[j]);
            } else {
                assert(r[k] == es[es.len() - 1]);
            }
        }
    }
}

/// Law: recording an alert for a well-formed ledger partition yields a
/// well-formed partition again.
pub proof fn lemma_record_alert_preserves_wf(
    es: Seq<EntryView>,
    endpoint: Seq<char>,
    server: Seq<char>,
    now: u64,
)
    requires
        ledger_wf(es, endpoint),
    ensures
        ledger_wf(spec_record_alert(es, endpoint, server, now), endpoint),
    decreases es.len(),
{
    lemma_remove_wf(es, endpoint, server);
    let rest = spec_remove_server(es, server);
    lemma_remove_server_membership(es, server);
    let r = spec_record_alert(es, endpoint, server, now);
    assert forall|i: int, j: int|
        #![trigger r[i], r[j]]
        0 <= i < j < r.len() implies r[i].server != r[j].server by {
        if j < rest.len() {
            assert(r[i] == rest[i] && r[j] == rest[j]);
        } else {
            assert(r[j].server == server);
            assert(r[i] == rest[i]);
        }
    }
}

/// Position of the last `'/'` strictly below `below`, or `-1` if there is
/// none.
pub open spec fn last_slash_before(s: Seq<char>, below: int) -> int
    decreases below when below >= 0
{
    if below <= 0 {
        -1
    } else if s[below - 1] == '/' {
        below - 1
    } else {
        last_slash_before(s, below - 1)
    }
}

/// The storage key for an endpoint: the next-to-last `'/'`-separated part
/// of the URL (for a webhook URL, the numeric webhook id before the trailing
/// token).
pub fn webhook_url_to_id(webhook_url: &str) -> (r: String)
    requires
        last_slash_before(webhook_url@, webhook_url@.len() as int) >= 0,
    ensures
        ({
            let s = webhook_url@;
            let last = last_slash_before(s, s.len() as int);
            let prev = last_slash_before(s, last);
            r@ == s.subrange(prev + 1, last)
        }),
{
    let ghost s = webhook_url@;
    let v = crate::codec::str_to_chars(webhook_url);
    let n = v.len();
    let mut j: usize = n;
    while j > 0 && v[j - 1] != '/'
        invariant
            0 <= j <= n,
            n == v@.len(),
            v@ == s,
            last_slash_before(s, n as int) == last_slash_before(s, j as int),
        decreases j,
    {
        proof {
            assert(last_slash_before(s, j as int) == last_slash_before(s, j as int - 1));
        }
        j = j - 1;
    }
    if j == 0 {
        proof {
            assert(last_slash_before(s, 0int) == -1);
            assert(false);
        }
        return String::new();
    }
    let last_idx = j - 1;
    proof {
        assert(last_slash_before(s, j as int) == j - 1);
    }
    let mut m: usize = last_idx;
    while m > 0 && v[m - 1] != '/'
        invariant
            0 <= m <= last_idx < n,
            n == v@.len(),
            v@ == s,
            last_idx == last_slash_before(s, s.len() as int),
            last_slash_before(s, last_idx as int) == last_slash_before(s, m as int),
        decreases m,
    {
        proof {
            assert(last_slash_before(s, m as int) == last_slash_before(s, m as int - 1));
        }
        m = m - 1;
    }
    proof {
        if m == 0 {
            assert(last_slash_before(s, 0int) == -1);
        } else {
            assert(last_slash_before(s, m as int) == m - 1);
        }
    }
    crate::codec::extract_string(&v, m, last_idx)
}

/// Removing a server keeps the partition well formed.
proof fn lemma_remove_wf(es: Seq<EntryView>, endpoint: Seq<char>, server: Seq<char>)
    requires
        ledger_wf(es, endpoint),
    ensures
        ledger_wf(spec_remove_server(es, server), endpoint),
    decreases es.len(),
{
    if es.len() > 0 {
        assert(ledger_wf(es.drop_last(), endpoint));
        lemma_remove_wf(es.drop_last(), endpoint, server);
        let rest = spec_remove_server(es.drop_last(), server);
        let r = spec_remove_server(es, server);
        if es.last().server != server {
            lemma_remove_server_membership(es.drop_last(), server);
            assert forall|i: int, j: int|
                #![trigger r[i], r[j]]
                0 <= i < j < r.len() implies r[i].server != r[j].server by {
                if j == r.len() - 1 {
                    assert(r[j] == es.last());
                    assert(r[i] == rest[i]);
                    let m = choose|m: int|
                        0 <= m < es.drop_last().len() && rest[i] == es.drop_last()[m];
                    assert(es[m].server != es[es.len() - 1].server);
                } else {
                    assert(r[i] == rest[i] && r[j] == rest[j]);
                }
            }
        }
    }
}

} // verus!
