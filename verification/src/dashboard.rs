//! The decisions the dashboard pages make on plain values: how a job status
//! is styled, how ids are shortened, which job a click selects, and what the
//! license panels say.

use vstd::prelude::*;
use vstd::string::{StrSliceExecFns, StringExecFns};
use crate::services::LicenseInfo;
use crate::text::{push_char, str_eq};

verus! {

/// The CSS class of a job's status badge in the job list.
pub open spec fn status_class(status: Seq<char>) -> Seq<char> {
    if status == "Completed"@ {
        "status-completed"@
    } else if status == "Failed"@ {
        "status-failed"@
    } else {
        "status-running"@
    }
}

/// The CSS class of a job's status in the job details.
pub open spec fn status_text_class(status: Seq<char>) -> Seq<char> {
    if status == "Completed"@ {
        "text-success"@
    } else if status == "Failed"@ {
        "text-error"@
    } else {
        "text-running"@
    }
}

/// The CSS class of a job's status badge: completed, failed, or running
/// (any other status).
pub fn job_status_class(status: &str) -> (c: &'static str)
    ensures
        c@ == status_class(status@),
{
    if str_eq(status, "Completed") {
        "status-completed"
    } else if str_eq(status, "Failed") {
        "status-failed"
    } else {
        "status-running"
    }
}

/// The CSS class of a job's status text in the details panel.
pub fn job_status_text_class(status: &str) -> (c: &'static str)
    ensures
        c@ == status_text_class(status@),
{
    if str_eq(status, "Completed") {
        "text-success"
    } else if str_eq(status, "Failed") {
        "text-error"
    } else {
        "text-running"
    }
}

/// The first `n` characters of a job id (all of it when shorter).
pub fn short_id(id: &str, n: usize) -> (s: String)
    ensures
        s@ == id@.take(if n < id@.len() {
            n as int
        } else {
            id@.len() as int
        }),
{
    let len = id.unicode_len();
    let take = if n < len {
        n
    } else {
        len
    };
    let mut s = String::new();
    let mut i: usize = 0;
    while i < take
        invariant
            len == id@.len(),
            take <= len,
            i <= take,
            s@ == id@.take(i as int),
        decreases take - i,
    {
        s = push_char(s, id.get_char(i));
        assert(s@ =~= id@.take(i + 1));
        i += 1;
    }
    s
}

/// The job a click on `id` selects: the first job with that id, if any.
pub fn select_job(ids: &Vec<String>, id: &str) -> (i: Option<usize>)
    ensures
        match i {
            Some(k) => k < ids@.len() && ids@[k as int]@ == id@ && forall|j: int|
                0 <= j < k ==> (#[trigger] ids@[j])@ != id@,
            None => forall|j: int| 0 <= j < ids@.len() ==> (#[trigger] ids@[j])@ != id@,
        },
{
    let n = ids.len();
    let mut k: usize = 0;
    while k < n
        invariant
            n == ids@.len(),
            k <= n,
            forall|j: int| 0 <= j < k ==> (#[trigger] ids@[j])@ != id@,
        decreases n - k,
    {
        if str_eq(ids[k].as_str(), id) {
            return Some(k);
        }
        k += 1;
    }
    None
}

/// What the license page shows.
#[derive(Debug, Clone)]
pub struct LicenseOverview {
    pub has_license: bool,
    pub has_pro: bool,
    pub features: Vec<String>,
    pub key_preview: Option<String>,
}

/// Builds the license page's state from the pro check and the key summary:
/// a key is present when the summary says so, and a valid pro license lists
/// cloud simulation and optimization.
pub fn license_overview(has_pro: bool, info: Option<LicenseInfo>) -> (o: LicenseOverview)
    ensures
        o.has_pro == has_pro,
        o.has_license == (info matches Some(i) && i.has_key),
        has_pro ==> o.features@.len() == 2 && o.features@[0]@ == "cloud_sim"@
            && o.features@[1]@ == "optimization"@,
        !has_pro ==> o.features@.len() == 0,
        match info {
            Some(i) => o.key_preview matches Some(p) && p@ == i.key_preview@,
            None => o.key_preview is None,
        },
{
    let mut features: Vec<String> = Vec::new();
    if has_pro {
        features.push(String::from_str("cloud_sim"));
        features.push(String::from_str("optimization"));
    }
    let (has_license, key_preview) = match info {
        Some(i) => (i.has_key, Some(i.key_preview)),
        None => (false, None),
    };
    LicenseOverview { has_license, has_pro, features, key_preview }
}

/// The headline of the license status card.
pub fn license_status_label(has_license: bool, has_pro: bool) -> (s: &'static str)
    ensures
        s@ == if !has_license {
            "No License Key Set"@
        } else if has_pro {
            "✅ Pro License Active"@
        } else {
            "🆓 Free Tier"@
        },
{
    if !has_license {
        "No License Key Set"
    } else if has_pro {
        "✅ Pro License Active"
    } else {
        "🆓 Free Tier"
    }
}

/// The license badge on the overview page.
pub fn license_badge(has_pro: bool) -> (s: &'static str)
    ensures
        s@ == if has_pro {
            "✅ Pro"@
        } else {
            "🆓 Free"@
        },
{
    if has_pro {
        "✅ Pro"
    } else {
        "🆓 Free"
    }
}

/// The number of jobs the overview lists as recent: at most five.
pub fn recent_job_count(total: usize) -> (n: usize)
    ensures
        n == if total < 5 {
            total
        } else {
            5
        },
{
    if total < 5 {
        total
    } else {
        5
    }
}

} // verus!
