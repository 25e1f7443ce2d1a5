//! Validation of service declarations.
use vstd::prelude::*;
use vstd::string::*;
use crate::error::NylonError;
use crate::types::services::{Endpoint, HealthCheck};

verus! {

/// Whether `s` ends with `c`.
pub open spec fn ends_with_char(s: Seq<char>, c: char) -> bool {
    s.len() > 0 && s.last() == c
}

/// The first problem of a health check, if any, in the order the checks run.
pub open spec fn health_check_issue(h: HealthCheck) -> Option<Seq<char>> {
    if h.interval@.len() == 0 {
        Some("Interval must be set"@)
    } else if h.timeout@.len() == 0 {
        Some("Timeout must be set"@)
    } else if h.healthy_threshold == 0 {
        Some("Healthy threshold must be set"@)
    } else if h.unhealthy_threshold == 0 {
        Some("Unhealthy threshold must be set"@)
    } else if h.path@.len() == 0 {
        Some("Path must be set"@)
    } else if !ends_with_char(h.interval@, 's') {
        Some("Interval must be in the format of [0-9]+[s]"@)
    } else if !ends_with_char(h.timeout@, 's') {
        Some("Timeout must be in the format of [0-9]+[s]"@)
    } else {
        None
    }
}

fn ends_with_s(s: &String) -> (b: bool)
    ensures
        b == ends_with_char(s@, 's'),
{
    let chars = crate::text::str_chars(s.as_str());
    chars.len() > 0 && chars[chars.len() - 1] == 's'
}

/// Validation of a health check.
pub trait HealthCheckExt {
    fn is_valid(&self) -> Result<(), NylonError>;
}

impl HealthCheckExt for HealthCheck {
    /// Fails with the first problem found (see `health_check_issue`).
    fn is_valid(&self) -> (r: Result<(), NylonError>)
        ensures
            match health_check_issue(*self) {
                None => r.is_ok(),
                Some(m) => r matches Err(NylonError::ConfigError(e)) && e@ == m,
            },
    {
        if self.interval.as_str().is_empty() {
            return Err(NylonError::ConfigError(String::from_str("Interval must be set")));
        }
        if self.timeout.as_str().is_empty() {
            return Err(NylonError::ConfigError(String::from_str("Timeout must be set")));
        }
        if self.healthy_threshold == 0 {
            return Err(NylonError::ConfigError(String::from_str("Healthy threshold must be set")));
        }
        if self.unhealthy_threshold == 0 {
            return Err(NylonError::ConfigError(String::from_str("Unhealthy threshold must be set")));
        }
        if self.path.as_str().is_empty() {
            return Err(NylonError::ConfigError(String::from_str("Path must be set")));
        }
        if !ends_with_s(&self.interval) {
            return Err(NylonError::ConfigError(String::from_str("Interval must be in the format of [0-9]+[s]")));
        }
        if !ends_with_s(&self.timeout) {
            return Err(NylonError::ConfigError(String::from_str("Timeout must be in the format of [0-9]+[s]")));
        }
        Ok(())
    }
}

/// Validation of an endpoint's address. The address is parsed as an IP address
/// by the caller (`std::net`); `parse_error` is the text of that parse's error,
/// `None` when the address parses.
pub trait EndpointExt {
    fn is_valid_ip(&self, parse_error: Option<&str>) -> Result<(), NylonError>;
}

impl EndpointExt for Endpoint {
    /// Fails with the parse error of the address, if there was one.
    fn is_valid_ip(&self, parse_error: Option<&str>) -> (r: Result<(), NylonError>)
        ensures
            match parse_error {
                None => r is Ok,
                Some(e) => r matches Err(NylonError::ConfigError(m)) && m@ == "Invalid IP address: "@ + e@,
            },
    {
        match parse_error {
            None => Ok(()),
            Some(e) => {
                proof { reveal_strlit("Invalid IP address: "); }
                Err(NylonError::ConfigError(String::from_str("Invalid IP address: ").concat(e)))
            },
        }
    }
}

} // verus!
