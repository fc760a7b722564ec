//! The pure decision at the heart of the monitor: given one server's status
//! record, a staleness threshold and the current time, decide whether the
//! server is fine, stale, invalid, or exempt from checking.

use vstd::prelude::*;

use crate::conf::MAX_STALE_AFTER_HOURS;
use crate::feed::{
    parsed_epoch_of, spec_is_extended_round, spec_revision_missing, ServerCompileData,
    ServerCompileDataView,
};

verus! {

/// Normalized per-server observation: the revision timestamp or the reason
/// it cannot be had, and whether the server is in an extended round.
pub struct StatusRecord {
    pub revision_timestamp: Result<u64, String>,
    pub is_extended_round: bool,
}

/// Mathematical image of a `StatusRecord`.
pub struct StatusRecordView {
    pub revision_timestamp: Result<u64, Seq<char>>,
    pub is_extended_round: bool,
}

impl View for StatusRecord {
    type V = StatusRecordView;

    open spec fn view(&self) -> StatusRecordView {
        StatusRecordView {
            revision_timestamp: match self.revision_timestamp {
                Ok(ts) => Ok(ts),
                Err(m) => Err(m@),
            },
            is_extended_round: self.is_extended_round,
        }
    }
}

impl DeepView for StatusRecord {
    type V = StatusRecordView;

    open spec fn deep_view(&self) -> StatusRecordView {
        self.view()
    }
}

/// What `evaluate` decides for one record.
pub enum Outcome {
    /// Extended round: staleness checking is suspended, nothing fires.
    Skip,
    /// The record carries no usable revision timestamp; the reason is
    /// alert-worthy in itself.
    Invalid(String),
    /// The server has not updated for longer than the threshold allows.
    Stale { elapsed_hours: u64, revision_timestamp: u64 },
    /// The server updated recently enough.
    Okay,
}

/// Mathematical image of an `Outcome`.
pub enum OutcomeView {
    Skip,
    Invalid(Seq<char>),
    Stale { elapsed_hours: u64, revision_timestamp: u64 },
    Okay,
}

impl View for Outcome {
    type V = OutcomeView;

    open spec fn view(&self) -> OutcomeView {
        match self {
            Outcome::Skip => OutcomeView::Skip,
            Outcome::Invalid(m) => OutcomeView::Invalid(m@),
            Outcome::Stale { elapsed_hours, revision_timestamp } => OutcomeView::Stale {
                elapsed_hours: *elapsed_hours,
                revision_timestamp: *revision_timestamp,
            },
            Outcome::Okay => OutcomeView::Okay,
        }
    }
}

/// The decision, as a total spec-level function: Skip on an extended round;
/// Invalid with the record's own reason where the timestamp is missing or
/// unparseable; Stale exactly when more than `threshold_hours` hours have
/// elapsed since the revision timestamp (the boundary itself is still Okay);
/// Okay otherwise.
pub open spec fn spec_evaluate(st: StatusRecordView, threshold_hours: u64, now: u64) -> OutcomeView {
    if st.is_extended_round {
        OutcomeView::Skip
    } else {
        match st.revision_timestamp {
            Err(m) => OutcomeView::Invalid(m),
            Ok(ts) => if now - ts > threshold_hours * 3600 {
                OutcomeView::Stale {
                    elapsed_hours: ((now - ts) / 3600) as u64,
                    revision_timestamp: ts,
                }
            } else {
                OutcomeView::Okay
            },
        }
    }
}

impl StatusRecord {
    /// Reads one feed observation into a status record. The outcome class is
    /// pinned down exactly; the reason text for an unparseable date is
    /// whatever the date parser reported, and is never empty.
    pub fn from_compile_data(scd: &ServerCompileData) -> (r: StatusRecord)
        ensures
            status_matches(scd@, r@),
    {
        StatusRecord {
            revision_timestamp: scd.revision_timestamp(),
            is_extended_round: scd.is_extended_round(),
        }
    }
}

/// How a status record relates to the feed observation it was read from:
/// everything is determined except the exact wording of a parse failure,
/// which is only known to be non-empty.
pub open spec fn status_matches(scd: ServerCompileDataView, st: StatusRecordView) -> bool {
    &&& st.is_extended_round == spec_is_extended_round(scd)
    &&& (spec_revision_missing(scd) ==> st.revision_timestamp == Err::<u64, Seq<char>>(
        "Revision date was not provided. This is a misconfiguration of the server."@,
    ))
    &&& (!spec_revision_missing(scd) ==> {
        let rd = scd.revision_date->0;
        match st.revision_timestamp {
            Ok(ts) => parsed_epoch_of(rd) == Some(ts),
            Err(m) => parsed_epoch_of(rd) is None && m.len() > 0,
        }
    })
    &&& (st.revision_timestamp matches Err(m) ==> m.len() > 0)
}

/// Decides one record, exactly as `spec_evaluate` describes. Total over its
/// inputs: no side effects, no failure.
pub fn evaluate(record: &StatusRecord, threshold_hours: u64, now: u64) -> (r: Outcome)
    requires
        threshold_hours <= MAX_STALE_AFTER_HOURS,
    ensures
        r@ == spec_evaluate(record@, threshold_hours, now),
{
    if record.is_extended_round {
        return Outcome::Skip;
    }
    match &record.revision_timestamp {
        Err(m) => Outcome::Invalid(m.clone()),
        Ok(ts) => {
            let ts = *ts;
            if now > ts && now - ts > threshold_hours * 3600 {
                Outcome::Stale { elapsed_hours: (now - ts) / 3600, revision_timestamp: ts }
            } else {
                Outcome::Okay
            }
        },
    }
}

/// Law: a record in an extended round is always skipped, whatever its
/// timestamp and whatever the threshold and clock say.
pub proof fn lemma_extended_round_skips(st: StatusRecordView, threshold_hours: u64, now: u64)
    requires
        st.is_extended_round,
    ensures
        spec_evaluate(st, threshold_hours, now) == OutcomeView::Skip,
{
}

/// Law: a record read from an observation with a missing or unparseable
/// revision date evaluates to Invalid with a non-empty reason, whatever the
/// threshold and clock say.
pub proof fn lemma_bad_timestamp_invalid(
    scd: ServerCompileDataView,
    st: StatusRecordView,
    threshold_hours: u64,
    now: u64,
)
    requires
        status_matches(scd, st),
        !st.is_extended_round,
        spec_revision_missing(scd) || parsed_epoch_of(scd.revision_date->0) is None,
    ensures
        spec_evaluate(st, threshold_hours, now) matches OutcomeView::Invalid(m) && m.len() > 0,
{
    reveal_strlit("Revision date was not provided. This is a misconfiguration of the server.");
}

/// Law: a record with a usable timestamp is Stale exactly when the elapsed
/// time exceeds the threshold, and Okay otherwise — on the boundary itself
/// it is Okay.
pub proof fn lemma_stale_iff_threshold_exceeded(
    st: StatusRecordView,
    ts: u64,
    threshold_hours: u64,
    now: u64,
)
    requires
        !st.is_extended_round,
        st.revision_timestamp == Ok::<u64, Seq<char>>(ts),
    ensures
        (spec_evaluate(st, threshold_hours, now) matches OutcomeView::Stale { .. }) <==> now - ts
            > threshold_hours * 3600,
        now - ts == threshold_hours * 3600 ==> spec_evaluate(st, threshold_hours, now)
            == OutcomeView::Okay,
{
}

} // verus!
