//! Configuration of one monitored notification target: which servers to
//! watch, the staleness threshold, and where alerts go.

use vstd::prelude::*;

verus! {

/// Upper bound on the staleness threshold in hours, so that the comparison
/// against `threshold * 3600` seconds never overflows a `u64`.
pub const MAX_STALE_AFTER_HOURS: u64 = 0xFFFF_FFFF_FFFF_FFFF / 3600;

/// Why a target configuration was rejected.
#[derive(Clone, Copy, Debug, PartialEq, Eq, Structural)]
pub enum ConfigError {
    /// The webhook URL (the notification endpoint) is empty.
    EmptyWebhookUrl,
    /// The set of watched servers is empty.
    NoTargetServers,
    /// The staleness threshold is zero hours.
    ZeroStaleThreshold,
    /// The staleness threshold in seconds would not fit in a `u64`.
    StaleThresholdTooLarge,
}

/// One monitored notification destination.
pub struct TargetInfo {
    name_override: Option<String>,
    webhook_url: String,
    error_revision_date_unchanged_for_hours: u64,
    target_servers: Vec<String>,
    ping_role_id: Option<String>,
}

/// Mathematical image of a `TargetInfo`.
pub struct TargetInfoView {
    pub name_override: Option<Seq<char>>,
    pub webhook_url: Seq<char>,
    pub error_revision_date_unchanged_for_hours: u64,
    pub target_servers: Seq<Seq<char>>,
    pub ping_role_id: Option<Seq<char>>,
}

impl View for TargetInfo {
    type V = TargetInfoView;

    closed spec fn view(&self) -> TargetInfoView {
        TargetInfoView {
            name_override: self.name_override.deep_view(),
            webhook_url: self.webhook_url@,
            error_revision_date_unchanged_for_hours: self.error_revision_date_unchanged_for_hours,
            target_servers: self.target_servers.deep_view(),
            ping_role_id: self.ping_role_id.deep_view(),
        }
    }
}

impl TargetInfoView {
    /// The configuration invariant: a target watches at least one server,
    /// names a non-empty endpoint, and carries a positive threshold whose
    /// value in seconds fits in a `u64`.
    pub open spec fn wf(self) -> bool {
        &&& self.webhook_url.len() > 0
        &&& self.target_servers.len() > 0
        &&& 0 < self.error_revision_date_unchanged_for_hours <= MAX_STALE_AFTER_HOURS
    }
}

/// The validation that `TargetInfo::new` performs, as a spec-level function.
pub open spec fn spec_validate_target(
    webhook_url: Seq<char>,
    error_revision_date_unchanged_for_hours: u64,
    target_servers: Seq<Seq<char>>,
) -> Result<(), ConfigError> {
    if webhook_url.len() == 0 {
        Err(ConfigError::EmptyWebhookUrl)
    } else if target_servers.len() == 0 {
        Err(ConfigError::NoTargetServers)
    } else if error_revision_date_unchanged_for_hours == 0 {
        Err(ConfigError::ZeroStaleThreshold)
    } else if error_revision_date_unchanged_for_hours > MAX_STALE_AFTER_HOURS {
        Err(ConfigError::StaleThresholdTooLarge)
    } else {
        Ok(())
    }
}

impl TargetInfo {
    /// Builds a target configuration, rejecting any set of values that
    /// breaks the configuration invariant.
    pub fn new(
        name_override: Option<String>,
        webhook_url: String,
        error_revision_date_unchanged_for_hours: u64,
        target_servers: Vec<String>,
        ping_role_id: Option<String>,
    ) -> (r: Result<TargetInfo, ConfigError>)
        ensures
            match r {
                Ok(t) => {
                    &&& spec_validate_target(
                        webhook_url@,
                        error_revision_date_unchanged_for_hours,
                        target_servers.deep_view(),
                    ) is Ok
                    &&& t@ == (TargetInfoView {
                        name_override: name_override.deep_view(),
                        webhook_url: webhook_url@,
                        error_revision_date_unchanged_for_hours,
                        target_servers: target_servers.deep_view(),
                        ping_role_id: ping_role_id.deep_view(),
                    })
                    &&& t@.wf()
                },
                Err(e) => spec_validate_target(
                    webhook_url@,
                    error_revision_date_unchanged_for_hours,
                    target_servers.deep_view(),
                ) == Err::<(), ConfigError>(e),
            },
    {
        if webhook_url.as_str().unicode_len() == 0 {
            Err(ConfigError::EmptyWebhookUrl)
        } else if target_servers.len() == 0 {
            Err(ConfigError::NoTargetServers)
        } else if error_revision_date_unchanged_for_hours == 0 {
            Err(ConfigError::ZeroStaleThreshold)
        } else if error_revision_date_unchanged_for_hours > MAX_STALE_AFTER_HOURS {
            Err(ConfigError::StaleThresholdTooLarge)
        } else {
            Ok(TargetInfo {
                name_override,
                webhook_url,
                error_revision_date_unchanged_for_hours,
                target_servers,
                ping_role_id,
            })
        }
    }

    /// The display-name override for delivered alerts, when present.
    pub fn name_override(&self) -> (r: &Option<String>)
        ensures
            r.deep_view() == self@.name_override,
    {
        &self.name_override
    }

    /// The notification endpoint; also the ledger partition key.
    pub fn webhook_url(&self) -> (r: &str)
        ensures
            r@ == self@.webhook_url,
    {
        self.webhook_url.as_str()
    }

    /// The staleness threshold in hours.
    pub fn error_revision_date_unchanged_for_hours(&self) -> (r: u64)
        ensures
            r == self@.error_revision_date_unchanged_for_hours,
    {
        self.error_revision_date_unchanged_for_hours
    }

    /// The servers this target watches.
    pub fn target_servers(&self) -> (r: &Vec<String>)
        ensures
            r.deep_view() == self@.target_servers,
    {
        &self.target_servers
    }

    /// The role to mention in alert messages, when present.
    pub fn ping_role_id(&self) -> (r: Option<&String>)
        ensures
            match r {
                Some(s) => self@.ping_role_id == Some(s@),
                None => self@.ping_role_id is None,
            },
    {
        self.ping_role_id.as_ref()
    }
}

} // verus!
