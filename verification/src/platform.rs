use vstd::prelude::*;

verus! {

/// What `slug::slugify` returns for a given string: a function of the
/// characters alone.
pub uninterp spec fn slug_of(s: Seq<char>) -> Seq<char>;

/// Relies on `chrono::Utc::now` and `DateTime::timestamp`: seconds since
/// the Unix epoch, by the system clock.  Nothing can be promised of the
/// clock's reading.
#[verifier::external_body]
pub fn unix_now_seconds() -> i64 {
    chrono::Utc::now().timestamp()
}

/// Relies on `chrono::Utc::now`, `TimeDelta::try_days`,
/// `DateTime::checked_add_signed` and `DateTime::to_rfc3339`: the instant
/// `days` days from now, formatted as RFC 3339 — now itself where the
/// duration or the addition is out of range.  Nothing can be promised of
/// the clock's reading.
#[verifier::external_body]
pub fn rfc3339_after_days(days: i64) -> String {
    match chrono::TimeDelta::try_days(days) {
        Some(delta) => chrono::Utc::now()
            .checked_add_signed(delta)
            .unwrap_or_else(chrono::Utc::now)
            .to_rfc3339(),
        None => chrono::Utc::now().to_rfc3339(),
    }
}

/// Relies on `hostname::get`: the machine's host name, lossily decoded, or
/// `None` where the platform call fails.  The result depends on the
/// machine.
#[verifier::external_body]
pub fn host_name() -> Option<String> {
    hostname::get().ok().map(|h| h.to_string_lossy().to_string())
}

/// Relies on `directories::ProjectDirs::from` and `config_dir`: the
/// platform-specific configuration directory for the given application
/// identifier, or `None` where no home directory is known.  The result
/// depends on the machine and environment.
#[verifier::external_body]
pub fn project_config_dir(qualifier: &str, organization: &str, application: &str) -> Option<
    String,
> {
    directories::ProjectDirs::from(qualifier, organization, application)
        .map(|dirs| dirs.config_dir().to_string_lossy().to_string())
}

/// Relies on `directories::ProjectDirs::from` and `data_dir`: the
/// platform-specific data directory for the given application identifier,
/// or `None` where no home directory is known.  The result depends on the
/// machine and environment.
#[verifier::external_body]
pub fn project_data_dir(qualifier: &str, organization: &str, application: &str) -> Option<String> {
    directories::ProjectDirs::from(qualifier, organization, application)
        .map(|dirs| dirs.data_dir().to_string_lossy().to_string())
}

/// Relies on `uuid::Uuid::new_v4` and its `Display` impl: a freshly drawn
/// random identifier.  Nothing can be promised of a random value.
#[verifier::external_body]
pub fn fresh_uuid() -> String {
    uuid::Uuid::new_v4().to_string()
}

/// Relies on `slug::slugify`: the slugified form of the input, which
/// depends on the characters alone.
#[verifier::external_body]
pub fn slugify(s: &str) -> (r: String)
    ensures
        r@ == slug_of(s@),
{
    slug::slugify(s)
}

} // verus!
