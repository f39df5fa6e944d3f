//! The version badge: the running version, the latest release when known,
//! and how long a check of GitHub is trusted.
use vstd::prelude::*;
use crate::release::{is_newer, is_newer_spec};
use crate::types::opt_view;

verus! {

/// The `/api/version` payload.
#[derive(Debug, Clone)]
pub struct VersionView {
    pub version: String,
    pub latest: Option<String>,
    pub update_available: bool,
}

/// The `/api/version` payload for the running version and the latest
/// release, where one is known: an update is available where the latest is
/// newer.
pub fn version_view(current: &str, latest: Option<&str>) -> (r: VersionView)
    ensures
        r.version@ == current@,
        opt_view(r.latest) == crate::files::opt_str_view(latest),
        r.update_available == (match latest {
            Some(l) => is_newer_spec(l@, current@),
            None => false,
        }),
{
    VersionView {
        version: current.to_string(),
        latest: match latest {
            Some(l) => Some(l.to_string()),
            None => None,
        },
        update_available: match latest {
            Some(l) => is_newer(l, current),
            None => false,
        },
    }
}

/// How long a successful check is trusted, in milliseconds.
pub const CACHE_OK_MS: u64 = 60000;

/// How long a failed check is trusted, in milliseconds.
pub const CACHE_ERR_MS: u64 = 15000;

/// What the cache of the last check offers.
#[derive(Debug, Clone)]
pub enum CacheHit {
    /// A release found within the last minute.
    FreshOk(String),
    /// A release found longer ago.
    StaleOk,
    /// A check that failed within the last 15 seconds.
    FreshErr,
    /// Nothing to go by.
    Miss,
}

/// What the cache offers, from the age of the last check (in milliseconds)
/// and what it found.
pub fn cache_hit(entry: Option<(u64, Option<&str>)>) -> (r: CacheHit)
    ensures
        match entry {
            None => r is Miss,
            Some((age, Some(v))) => if age <= CACHE_OK_MS {
                r matches CacheHit::FreshOk(s) && s@ == v@
            } else {
                r is StaleOk
            },
            Some((age, None)) => if age <= CACHE_ERR_MS {
                r is FreshErr
            } else {
                r is Miss
            },
        },
{
    match entry {
        None => CacheHit::Miss,
        Some((age, Some(v))) => if age <= CACHE_OK_MS {
            CacheHit::FreshOk(v.to_string())
        } else {
            CacheHit::StaleOk
        },
        Some((age, None)) => if age <= CACHE_ERR_MS {
            CacheHit::FreshErr
        } else {
            CacheHit::Miss
        },
    }
}

/// The badge answered at once: a fresh release as found, nothing after a
/// fresh failure, else the last release found (or nothing); the flag says
/// whether a check should start in the background.
pub fn snapshot_view(current: &str, hit: &CacheHit, last_ok: Option<&str>) -> (r: (VersionView, bool))
    ensures
        r.0.version@ == current@,
        match hit {
            CacheHit::FreshOk(v) => opt_view(r.0.latest) == Some(v@) && !r.1,
            CacheHit::FreshErr => r.0.latest is None && !r.1,
            _ => opt_view(r.0.latest) == crate::files::opt_str_view(last_ok) && r.1,
        },
        r.0.update_available == (match opt_view(r.0.latest) {
            Some(l) => is_newer_spec(l, current@),
            None => false,
        }),
{
    match hit {
        CacheHit::FreshOk(v) => (version_view(current, Some(v.as_str())), false),
        CacheHit::FreshErr => (version_view(current, None), false),
        _ => (version_view(current, last_ok), true),
    }
}

} // verus!
