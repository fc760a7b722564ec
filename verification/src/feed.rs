//! Per-server observations from the upstream status feed: the raw entries,
//! their normalized per-server form, and the fallible read of the revision
//! timestamp.

use vstd::prelude::*;

verus! {

/// A round longer than this many tenths of a second counts as extended, and
/// staleness checks are suspended for the server.
pub const EXTENDED_ROUND_DECISECONDS: u64 = 72000;

/// What `chrono::DateTime::parse_from_str` with the fixed layout
/// `"%Y-%m-%dT%H:%M:%S%z"` yields for a given input, mapped to seconds since
/// the Unix epoch: `None` where the parse fails.
pub uninterp spec fn parsed_epoch_of(s: Seq<char>) -> Option<u64>;

/// Relies on chrono's `DateTime::parse_from_str` (layout
/// `"%Y-%m-%dT%H:%M:%S%z"`), `DateTime::timestamp` and the `Display` of
/// chrono's `ParseError`: the parse result depends on the input characters
/// alone, and every error message chrono writes is a fixed non-empty text.
#[verifier::external_body]
fn parse_revision_date(s: &str) -> (r: Result<u64, String>)
    ensures
        r is Ok <==> parsed_epoch_of(s@) is Some,
        r matches Ok(ts) ==> parsed_epoch_of(s@) == Some(ts),
        r matches Err(m) ==> m@.len() > 0,
{
    match chrono::DateTime::parse_from_str(s, "%Y-%m-%dT%H:%M:%S%z") {
        Ok(dt) => Ok(dt.timestamp() as u64),
        Err(e) => Err(e.to_string()),
    }
}

/// The observation the feed carries for one server, reduced to the fields
/// the monitor consumes.
pub struct ServerCompileData {
    revision_date: Option<String>,
    round_duration: Option<u64>,
}

/// Mathematical image of a `ServerCompileData`.
pub struct ServerCompileDataView {
    pub revision_date: Option<Seq<char>>,
    pub round_duration: Option<u64>,
}

impl View for ServerCompileData {
    type V = ServerCompileDataView;

    closed spec fn view(&self) -> ServerCompileDataView {
        ServerCompileDataView {
            revision_date: self.revision_date.deep_view(),
            round_duration: self.round_duration,
        }
    }
}

impl DeepView for ServerCompileData {
    type V = ServerCompileDataView;

    open spec fn deep_view(&self) -> ServerCompileDataView {
        self.view()
    }
}

/// Whether the revision date is missing or empty: a distinct failure mode,
/// reported rather than ignored.
pub open spec fn spec_revision_missing(v: ServerCompileDataView) -> bool {
    match v.revision_date {
        None => true,
        Some(rd) => rd.len() == 0,
    }
}

/// Whether the server is in an extended round.
pub open spec fn spec_is_extended_round(v: ServerCompileDataView) -> bool {
    match v.round_duration {
        Some(d) => d > EXTENDED_ROUND_DECISECONDS,
        None => false,
    }
}

impl ServerCompileData {
    pub fn new(revision_date: Option<String>, round_duration: Option<u64>) -> (r: Self)
        ensures
            r@ == (ServerCompileDataView {
                revision_date: revision_date.deep_view(),
                round_duration,
            }),
    {
        ServerCompileData { revision_date, round_duration }
    }

    /// The revision timestamp in seconds since the Unix epoch, or the reason
    /// it cannot be had: a missing or empty revision date is its own error,
    /// an unparseable one propagates the parser's message. The reason is
    /// never empty.
    pub fn revision_timestamp(&self) -> (r: Result<u64, String>)
        ensures
            spec_revision_missing(self@) ==> (r matches Err(m) && m@
                == "Revision date was not provided. This is a misconfiguration of the server."@),
            !spec_revision_missing(self@) ==> {
                let rd = self@.revision_date->0;
                &&& (r is Ok <==> parsed_epoch_of(rd) is Some)
                &&& (r matches Ok(ts) ==> parsed_epoch_of(rd) == Some(ts))
            },
            r matches Err(m) ==> m@.len() > 0,
    {
        proof {
            reveal_strlit(
                "Revision date was not provided. This is a misconfiguration of the server.",
            );
        }
        match &self.revision_date {
            Some(rd) if rd.as_str().unicode_len() > 0 => parse_revision_date(rd.as_str()),
            _ => Err(
                String::from_str(
                    "Revision date was not provided. This is a misconfiguration of the server.",
                ),
            ),
        }
    }

    /// Whether the server's current round has run long enough to suspend
    /// staleness checks.
    pub fn is_extended_round(&self) -> (r: bool)
        ensures
            r == spec_is_extended_round(self@),
    {
        match self.round_duration {
            Some(d) => d > EXTENDED_ROUND_DECISECONDS,
            None => false,
        }
    }
}

/// One raw entry of the fetched feed, before normalization: the server's
/// database name, the fields the monitor reads, and whether the feed marked
/// the entry as erroneous.
pub struct RawFeedEntry {
    pub db_name: Option<String>,
    pub revision_date: Option<String>,
    pub round_duration: Option<u64>,
    pub error: bool,
}

/// Mathematical image of a `RawFeedEntry`.
pub struct RawFeedEntryView {
    pub db_name: Option<Seq<char>>,
    pub revision_date: Option<Seq<char>>,
    pub round_duration: Option<u64>,
    pub error: bool,
}

impl View for RawFeedEntry {
    type V = RawFeedEntryView;

    open spec fn view(&self) -> RawFeedEntryView {
        RawFeedEntryView {
            db_name: self.db_name.deep_view(),
            revision_date: self.revision_date.deep_view(),
            round_duration: self.round_duration,
            error: self.error,
        }
    }
}

impl DeepView for RawFeedEntry {
    type V = RawFeedEntryView;

    open spec fn deep_view(&self) -> RawFeedEntryView {
        self.view()
    }
}

/// Normal form of one kept entry: an empty revision date becomes an absent
/// one, the round duration is kept as is.
pub open spec fn spec_normalize_entry(e: RawFeedEntryView) -> ServerCompileDataView {
    ServerCompileDataView {
        revision_date: match e.revision_date {
            Some(rd) => if rd.len() > 0 {
                Some(rd)
            } else {
                None
            },
            None => None,
        },
        round_duration: e.round_duration,
    }
}

/// The whole feed after normalization: erroneous entries dropped, the rest
/// keyed by database name, in order; `None` where a kept entry has no name
/// (a malformed feed, fatal for the cycle).
pub open spec fn spec_normalize_feed(raw: Seq<RawFeedEntryView>) -> Option<
    Seq<(Seq<char>, ServerCompileDataView)>,
>
    decreases raw.len(),
{
    if raw.len() == 0 {
        Some(Seq::empty())
    } else {
        match spec_normalize_feed(raw.drop_last()) {
            None => None,
            Some(acc) => {
                let e = raw.last();
                if e.error {
                    Some(acc)
                } else {
                    match e.db_name {
                        None => None,
                        Some(name) => Some(acc.push((name, spec_normalize_entry(e)))),
                    }
                }
            },
        }
    }
}

/// Once normalization has failed on a prefix of the feed, it fails on the
/// whole feed.
proof fn lemma_normalize_none_persists(raw: Seq<RawFeedEntryView>, j: int)
    requires
        0 <= j <= raw.len(),
        spec_normalize_feed(raw.take(j)) is None,
    ensures
        spec_normalize_feed(raw) is None,
    decreases raw.len() - j,
{
    if j == raw.len() {
        assert(raw.take(j) =~= raw);
    } else {
        assert(raw.take(j + 1).drop_last() =~= raw.take(j));
        lemma_normalize_none_persists(raw, j + 1);
    }
}

/// First record listed under `name`, if any.
pub open spec fn spec_lookup(
    servers: Seq<(Seq<char>, ServerCompileDataView)>,
    name: Seq<char>,
) -> Option<ServerCompileDataView>
    decreases servers.len(),
{
    if servers.len() == 0 {
        None
    } else if servers[0].0 == name {
        Some(servers[0].1)
    } else {
        spec_lookup(servers.drop_first(), name)
    }
}

/// The normalized status feed: per-server observations keyed by server name.
pub struct GlobalCompileData {
    servers: Vec<(String, ServerCompileData)>,
}

impl View for GlobalCompileData {
    type V = Seq<(Seq<char>, ServerCompileDataView)>;

    closed spec fn view(&self) -> Seq<(Seq<char>, ServerCompileDataView)> {
        self.servers.deep_view()
    }
}

impl GlobalCompileData {
    /// Normalizes a fetched feed, exactly as `spec_normalize_feed` describes.
    pub fn from_feed(raw: Vec<RawFeedEntry>) -> (r: Option<GlobalCompileData>)
        ensures
            match r {
                Some(g) => spec_normalize_feed(raw.deep_view()) == Some(g@),
                None => spec_normalize_feed(raw.deep_view()) is None,
            },
    {
        let n = raw.len();
        let mut servers: Vec<(String, ServerCompileData)> = Vec::new();
        let mut i: usize = 0;
        proof {
            assert(raw.deep_view().take(0) =~= Seq::<RawFeedEntryView>::empty());
            assert(servers.deep_view() =~= Seq::<(Seq<char>, ServerCompileDataView)>::empty());
        }
        while i < n
            invariant
                0 <= i <= n,
                n == raw@.len(),
                spec_normalize_feed(raw.deep_view().take(i as int)) == Some(servers.deep_view()),
            decreases n - i,
        {
            let e = &raw[i];
            proof {
                assert(raw.deep_view()[i as int] == raw[i as int]@);
                assert(raw.deep_view().take(i as int + 1).drop_last() =~= raw.deep_view().take(
                    i as int,
                ));
                assert(raw.deep_view().take(i as int + 1).last() == raw.deep_view()[i as int]);
            }
            if !e.error {
                let name = match &e.db_name {
                    Some(s) => s.clone(),
                    None => {
                        proof {
                            lemma_normalize_none_persists(raw.deep_view(), i as int + 1);
                        }
                        return None;
                    },
                };
                let rd: Option<String> = match &e.revision_date {
                    Some(s) => if s.as_str().unicode_len() > 0 {
                        Some(s.clone())
                    } else {
                        None
                    },
                    None => None,
                };
                let scd = ServerCompileData::new(rd, e.round_duration);
                let ghost sv0 = servers.deep_view();
                servers.push((name, scd));
                proof {
                    assert(servers.deep_view() =~= sv0.push(
                        (raw.deep_view()[i as int].db_name->0, spec_normalize_entry(
                            raw.deep_view()[i as int],
                        )),
                    ));
                }
            }
            i = i + 1;
        }
        proof {
            assert(raw.deep_view().take(n as int) =~= raw.deep_view());
        }
        Some(GlobalCompileData { servers })
    }

    /// Looks a server up by name, exactly as `spec_lookup` describes.
    pub fn lookup(&self, name: &str) -> (r: Option<&ServerCompileData>)
        ensures
            match r {
                Some(scd) => spec_lookup(self@, name@) == Some(scd@),
                None => spec_lookup(self@, name@) is None,
            },
    {
        let key = String::from_str(name);
        let n = self.servers.len();
        let mut i: usize = 0;
        proof {
            assert(self@.skip(0) =~= self@);
        }
        while i < n
            invariant
                0 <= i <= n,
                n == self.servers@.len(),
                key@ == name@,
                spec_lookup(self@, name@) == spec_lookup(self@.skip(i as int), name@),
            decreases n - i,
        {
            proof {
                assert(self@[i as int] == self.servers[i as int].deep_view());
                assert(self@.skip(i as int)[0] == self@[i as int]);
                assert(self@.skip(i as int).drop_first() =~= self@.skip(i as int + 1));
            }
            if self.servers[i].0 == key {
                return Some(&self.servers[i].1);
            }
            i = i + 1;
        }
        proof {
            assert(self@.skip(n as int) =~= Seq::<(Seq<char>, ServerCompileDataView)>::empty());
        }
        None
    }

    /// How many servers the feed lists.
    pub fn len(&self) -> (r: usize)
        ensures
            r == self@.len(),
    {
        self.servers.len()
    }
}

} // verus!
