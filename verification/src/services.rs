//! Client-side pieces of the EdgeBot services: simulation server endpoints,
//! the license summary shown on the dashboard, and server error values.

use vstd::prelude::*;
use vstd::string::{StrSliceExecFns, StringExecFns};
use crate::text::push_char;

verus! {

/// Client for the EdgeBot Simulation Server API
pub struct SimServerClient {
    base_url: String,
}

impl SimServerClient {
    pub closed spec fn base(&self) -> Seq<char> {
        self.base_url@
    }

    /// Create a new client with the given server URL
    pub fn new(base_url: &str) -> (c: Self)
        ensures
            c.base() == base_url@,
    {
        SimServerClient { base_url: String::from_str(base_url) }
    }

    /// A client for the configured server URL (`EDGEBOT_SIM_SERVER_URL`),
    /// or for `http://localhost:8080` when none is configured.
    pub fn from_setting(url: Option<&str>) -> (c: Self)
        ensures
            c.base() == match url {
                Some(u) => u@,
                None => "http://localhost:8080"@,
            },
    {
        match url {
            Some(u) => SimServerClient::new(u),
            None => SimServerClient::new("http://localhost:8080"),
        }
    }

    /// The endpoint listing all simulation jobs.
    pub fn jobs_url(&self) -> (u: String)
        ensures
            u@ == self.base() + "/jobs"@,
    {
        self.base_url.clone().concat("/jobs")
    }

    /// The endpoint with the results of one job.
    pub fn job_results_url(&self, job_id: &str) -> (u: String)
        ensures
            u@ == self.base() + "/results/"@ + job_id@,
    {
        self.base_url.clone().concat("/results/").concat(job_id)
    }

    /// The endpoint that starts a simulation.
    pub fn simulate_url(&self) -> (u: String)
        ensures
            u@ == self.base() + "/simulate"@,
    {
        self.base_url.clone().concat("/simulate")
    }

    /// The health check endpoint.
    pub fn health_url(&self) -> (u: String)
        ensures
            u@ == self.base() + "/health"@,
    {
        self.base_url.clone().concat("/health")
    }
}

/// Client for querying model metrics (from benchmark results)
pub struct MetricsClient {
    results_path: String,
}

impl MetricsClient {
    pub closed spec fn path(&self) -> Seq<char> {
        self.results_path@
    }

    pub fn new(results_path: &str) -> (c: Self)
        ensures
            c.path() == results_path@,
    {
        MetricsClient { results_path: String::from_str(results_path) }
    }
}

/// What the dashboard shows about the configured license key.
#[derive(Debug, Clone)]
pub struct LicenseInfo {
    pub has_key: bool,
    pub key_preview: String,
    pub features: Vec<String>,
    pub expiry: Option<i64>,
}

/// The preview of a key: `...` and then its last eight characters, last
/// first (all of them for shorter keys).
pub open spec fn key_preview(key: Seq<char>) -> Seq<char> {
    "..."@ + key.reverse().take(if key.len() < 8 {
        key.len() as int
    } else {
        8
    })
}

/// The license summary for the configured key: none for a missing or empty
/// key, otherwise a summary with the key's preview and no features or expiry
/// (those need a verified key).
pub fn license_info_from_key(key: Option<&str>) -> (info: Option<LicenseInfo>)
    ensures
        match key {
            None => info is None,
            Some(k) => if k@.len() == 0 {
                info is None
            } else {
                info is Some && info->0.has_key && info->0.key_preview@ == key_preview(k@)
                    && info->0.features@.len() == 0 && info->0.expiry is None
            },
        },
{
    match key {
        None => None,
        Some(k) => {
            let n = k.unicode_len();
            if n == 0 {
                return None;
            }
            let take = if n < 8 {
                n
            } else {
                8
            };
            let mut preview = String::from_str("...");
            let mut i: usize = 0;
            while i < take
                invariant
                    n == k@.len(),
                    take <= n,
                    i <= take,
                    preview@ == "..."@ + k@.reverse().take(i as int),
                decreases take - i,
            {
                let c = k.get_char(n - 1 - i);
                preview = push_char(preview, c);
                assert(preview@ =~= "..."@ + k@.reverse().take(i + 1));
                i += 1;
            }
            Some(
                LicenseInfo {
                    has_key: true,
                    key_preview: preview,
                    features: Vec::new(),
                    expiry: None,
                },
            )
        },
    }
}

/// Custom error type for server errors
#[derive(Debug)]
pub struct ServerError {
    pub message: String,
}

impl ServerError {
    pub fn new(message: &str) -> (e: Self)
        ensures
            e.message@ == message@,
    {
        ServerError { message: String::from_str(message) }
    }
}

} // verus!
