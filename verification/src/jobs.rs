//! The simulation server's bookkeeping: its configuration, the jobs it runs
//! and their status changes. Performance figures are floating point and are
//! kept by the server next to these records.

use vstd::prelude::*;
use vstd::string::{StrSliceExecFns, StringExecFns};
use crate::services::ServerError;
use crate::text::str_eq;

verus! {

/// Job status
#[derive(Debug, Clone, Copy, PartialEq, Eq, Structural)]
pub enum JobStatus {
    Running,
    Completed,
    Failed,
}

/// A simulation job: what was asked, how far it got, and the frame count
/// and scene of its results once it completes.
pub struct JobRecord {
    pub id: String,
    pub status: JobStatus,
    pub model_name: String,
    pub world_file: Option<String>,
    pub scenes: Vec<String>,
    pub total_frames: Option<u32>,
    pub scene_name: Option<String>,
    pub error: Option<String>,
}

/// Request to start a simulation
pub struct SimulateRequest {
    pub world_file: String,
    pub scenes: Vec<String>,
    pub model_name: String,
}

/// Response with job ID
pub struct JobResponse {
    pub job_id: String,
    pub message: String,
}

impl JobResponse {
    /// The answer to an accepted simulation request.
    pub fn started(job_id: String) -> (r: Self)
        ensures
            r.job_id@ == job_id@,
            r.message@ == "Simulation started"@,
    {
        JobResponse { job_id, message: String::from_str("Simulation started") }
    }
}

/// The job an upload starts: the uploaded model on the default world with
/// one scene, running, with no results yet.
pub fn uploaded_job(id: String) -> (j: JobRecord)
    ensures
        j.id@ == id@,
        j.status == JobStatus::Running,
        j.model_name@ == "uploaded_model"@,
        j.world_file matches Some(w) && w@ == "worlds/default.wbt"@,
        j.scenes@.len() == 1 && j.scenes@[0]@ == "scene1"@,
        j.total_frames is None,
        j.scene_name is None,
        j.error is None,
{
    let mut scenes: Vec<String> = Vec::new();
    scenes.push(String::from_str("scene1"));
    JobRecord {
        id,
        status: JobStatus::Running,
        model_name: String::from_str("uploaded_model"),
        world_file: Some(String::from_str("worlds/default.wbt")),
        scenes,
        total_frames: None,
        scene_name: None,
        error: None,
    }
}

/// The scene the results are reported for: the first one, or `default`.
pub fn metrics_scene_name(scenes: &Vec<String>) -> (n: String)
    ensures
        scenes@.len() > 0 ==> n@ == scenes@[0]@,
        scenes@.len() == 0 ==> n@ == "default"@,
{
    if scenes.len() > 0 {
        scenes[0].clone()
    } else {
        String::from_str("default")
    }
}

/// Whether Webots runs headless: `WEBOTS_HEADLESS` set to `true` or `1`, or
/// not set at all.
pub fn headless_from(setting: Option<&str>) -> (h: bool)
    ensures
        h == match setting {
            Some(v) => v@ == "true"@ || v@ == "1"@,
            None => true,
        },
{
    match setting {
        Some(v) => str_eq(v, "true") || str_eq(v, "1"),
        None => true,
    }
}

/// What running one simulation step of a scene gives: a completed step
/// counts a frame, and the scene goes on while fewer than 1000 steps have run;
/// a failed step ends the scene without a frame. `step` counts the steps
/// already run in the scene, `frames` the frames counted so far.
pub fn scene_after_step(step: u32, frames: u32, step_ok: bool) -> (r: (u32, bool))
    requires
        step < 1000,
        frames < u32::MAX,
    ensures
        step_ok ==> r.0 == frames + 1 && r.1 == (step + 1 < 1000),
        !step_ok ==> r.0 == frames && !r.1,
{
    if step_ok {
        (frames + 1, step + 1 < 1000)
    } else {
        (frames, false)
    }
}

/// The value of a string of decimal digits.
pub open spec fn digits_value(s: Seq<char>) -> int
    decreases s.len(),
{
    if s.len() == 0 {
        0
    } else {
        digits_value(s.drop_last()) * 10 + (s.last() as int - '0' as int)
    }
}

pub open spec fn all_digits(s: Seq<char>) -> bool {
    forall|i: int| 0 <= i < s.len() ==> '0' <= #[trigger] s[i] <= '9'
}

/// What parsing a port number gives, as `u16`'s `from_str` reads it: an
/// optional `+`, then at least one decimal digit, with a value that fits.
pub open spec fn port_value(s: Seq<char>) -> Option<u16> {
    let d = if s.len() > 0 && s[0] == '+' {
        s.drop_first()
    } else {
        s
    };
    if d.len() > 0 && all_digits(d) && digits_value(d) <= u16::MAX {
        Some(digits_value(d) as u16)
    } else {
        None
    }
}

proof fn lemma_digits_value_grows(s: Seq<char>, i: int)
    requires
        all_digits(s),
        0 <= i <= s.len(),
    ensures
        digits_value(s.take(i)) <= digits_value(s),
        0 <= digits_value(s.take(i)),
    decreases s.len() - i,
{
    if i < s.len() {
        lemma_digits_value_grows(s, i + 1);
        assert(s.take(i + 1).drop_last() =~= s.take(i));
        assert(s.take(i + 1).last() == s[i]);
    } else {
        assert(s.take(i) =~= s);
        lemma_digits_value_nonneg(s);
    }
}

proof fn lemma_digits_value_nonneg(s: Seq<char>)
    requires
        all_digits(s),
    ensures
        0 <= digits_value(s),
    decreases s.len(),
{
    if s.len() > 0 {
        assert(all_digits(s.drop_last()));
        lemma_digits_value_nonneg(s.drop_last());
        assert('0' <= s[s.len() - 1] <= '9');
    }
}

/// Parses a port number.
pub fn parse_port(s: &str) -> (p: Option<u16>)
    ensures
        p == port_value(s@),
{
    let n = s.unicode_len();
    let start: usize = if n > 0 && s.get_char(0) == '+' {
        1
    } else {
        0
    };
    let ghost d = if s@.len() > 0 && s@[0] == '+' {
        s@.drop_first()
    } else {
        s@
    };
    assert(d =~= s@.subrange(start as int, n as int));
    if start >= n {
        return None;
    }
    let mut acc: u32 = 0;
    let mut i: usize = start;
    while i < n
        invariant
            n == s@.len(),
            start <= i <= n,
            start < n,
            d =~= s@.subrange(start as int, n as int),
            d == (if s@.len() > 0 && s@[0] == '+' {
                s@.drop_first()
            } else {
                s@
            }),
            all_digits(d.take(i - start)),
            acc == digits_value(d.take(i - start)),
            acc <= u16::MAX,
        decreases n - i,
    {
        let c = s.get_char(i);
        let ghost k: int = i - start;
        assert(d[k] == c);
        if c < '0' || c > '9' {
            assert(!('0' <= d[k] <= '9'));
            assert(!all_digits(d));
            return None;
        }
        let digit = (c as u32) - ('0' as u32);
        assert(d.take(k + 1).drop_last() =~= d.take(k));
        assert(d.take(k + 1).last() == c);
        acc = acc * 10 + digit;
        assert(acc == digits_value(d.take(k + 1)));
        assert(all_digits(d.take(k + 1)));
        if acc > 65535 {
            proof {
                if all_digits(d) {
                    lemma_digits_value_grows(d, k + 1);
                    assert(digits_value(d) > u16::MAX);
                }
            }
            return None;
        }
        i += 1;
    }
    assert(d.take(n - start) =~= d);
    Some(acc as u16)
}

/// Server configuration
pub struct ServerConfig {
    pub host: String,
    pub port: u16,
    pub models_dir: String,
}

impl ServerConfig {
    /// The configuration from the `HOST`, `PORT` and `MODELS_DIR` settings,
    /// each when it is set: host `0.0.0.0`, port 8080 (also when `PORT` does
    /// not parse) and `./models` otherwise.
    pub fn from_values(host: Option<&str>, port: Option<&str>, models_dir: Option<&str>) -> (c: Self)
        ensures
            c.host@ == match host {
                Some(h) => h@,
                None => "0.0.0.0"@,
            },
            c.port == match port {
                Some(p) => match port_value(p@) {
                    Some(v) => v,
                    None => 8080u16,
                },
                None => 8080u16,
            },
            c.models_dir@ == match models_dir {
                Some(m) => m@,
                None => "./models"@,
            },
    {
        let host = match host {
            Some(h) => String::from_str(h),
            None => String::from_str("0.0.0.0"),
        };
        let port = match port {
            Some(p) => match parse_port(p) {
                Some(v) => v,
                None => 8080,
            },
            None => 8080,
        };
        let models_dir = match models_dir {
            Some(m) => String::from_str(m),
            None => String::from_str("./models"),
        };
        ServerConfig { host, port, models_dir }
    }
}

/// The jobs of a list, by id; a later job replaces an earlier one of the
/// same id.
pub open spec fn jobs_by_id(s: Seq<JobRecord>) -> Map<Seq<char>, JobRecord>
    decreases s.len(),
{
    if s.len() == 0 {
        Map::empty()
    } else {
        jobs_by_id(s.drop_last()).insert(s.last().id@, s.last())
    }
}

/// No two jobs of the list share an id.
pub open spec fn distinct_ids(s: Seq<JobRecord>) -> bool {
    forall|i: int, j: int|
        0 <= i < s.len() && 0 <= j < s.len() && i != j ==> (#[trigger] s[i]).id@ != (#[trigger] s[j]).id@
}

/// A job marked as failed with an error message.
pub open spec fn failed_job(j: JobRecord, error: String) -> JobRecord {
    JobRecord {
        id: j.id,
        status: JobStatus::Failed,
        model_name: j.model_name,
        world_file: j.world_file,
        scenes: j.scenes,
        total_frames: j.total_frames,
        scene_name: j.scene_name,
        error: Some(error),
    }
}

/// A job marked as completed with its frame count and scene.
pub open spec fn completed_job(j: JobRecord, total_frames: u32, scene_name: String) -> JobRecord {
    JobRecord {
        id: j.id,
        status: JobStatus::Completed,
        model_name: j.model_name,
        world_file: j.world_file,
        scenes: j.scenes,
        total_frames: Some(total_frames),
        scene_name: Some(scene_name),
        error: j.error,
    }
}

proof fn lemma_jobs_by_id_index(s: Seq<JobRecord>, i: int)
    requires
        distinct_ids(s),
        0 <= i < s.len(),
    ensures
        jobs_by_id(s).contains_key(s[i].id@),
        jobs_by_id(s)[s[i].id@] == s[i],
    decreases s.len(),
{
    if i < s.len() - 1 {
        assert(s.drop_last()[i] == s[i]);
        assert(s[i].id@ != s[s.len() - 1].id@);
        lemma_jobs_by_id_index(s.drop_last(), i);
    }
}

proof fn lemma_jobs_by_id_keys(s: Seq<JobRecord>, k: Seq<char>)
    ensures
        jobs_by_id(s).contains_key(k) <==> exists|i: int| 0 <= i < s.len() && (#[trigger] s[i]).id@ == k,
    decreases s.len(),
{
    if s.len() > 0 {
        lemma_jobs_by_id_keys(s.drop_last(), k);
        if jobs_by_id(s.drop_last()).contains_key(k) {
            let i = choose|i: int| 0 <= i < s.drop_last().len() && (#[trigger] s.drop_last()[i]).id@ == k;
            assert(s[i] == s.drop_last()[i]);
        }
        if exists|i: int| 0 <= i < s.len() && (#[trigger] s[i]).id@ == k {
            let i = choose|i: int| 0 <= i < s.len() && (#[trigger] s[i]).id@ == k;
            if i < s.len() - 1 {
                assert(s.drop_last()[i] == s[i]);
            }
        }
    }
}

proof fn lemma_jobs_by_id_update(s: Seq<JobRecord>, i: int, x: JobRecord)
    requires
        distinct_ids(s),
        0 <= i < s.len(),
        x.id@ == s[i].id@,
    ensures
        jobs_by_id(s.update(i, x)) == jobs_by_id(s).insert(x.id@, x),
        distinct_ids(s.update(i, x)),
    decreases s.len(),
{
    let u = s.update(i, x);
    if i == s.len() - 1 {
        assert(u.drop_last() =~= s.drop_last());
        assert(jobs_by_id(u) =~= jobs_by_id(s).insert(x.id@, x));
    } else {
        assert(u.drop_last() =~= s.drop_last().update(i, x));
        assert(s.drop_last()[i] == s[i]);
        lemma_jobs_by_id_update(s.drop_last(), i, x);
        assert(s[s.len() - 1].id@ != s[i].id@);
        assert(jobs_by_id(u) =~= jobs_by_id(s).insert(x.id@, x));
    }
    assert forall|a: int, b: int|
        0 <= a < u.len() && 0 <= b < u.len() && a != b implies (#[trigger] u[a]).id@
        != (#[trigger] u[b]).id@ by {
        assert(s[a].id@ != s[b].id@);
    }
}

/// The jobs of the simulation server, by id.
pub struct JobStore {
    jobs: Vec<JobRecord>,
}

impl JobStore {
    /// The stored jobs, in the order they were first added.
    pub closed spec fn records(&self) -> Seq<JobRecord> {
        self.jobs@
    }

    /// The stored jobs by id.
    pub open spec fn view(&self) -> Map<Seq<char>, JobRecord> {
        jobs_by_id(self.records())
    }

    /// Each job is stored once.
    pub open spec fn wf(&self) -> bool {
        distinct_ids(self.records())
    }

    /// An empty store.
    pub fn new() -> (s: Self)
        ensures
            s.wf(),
            s.view() == Map::<Seq<char>, JobRecord>::empty(),
    {
        JobStore { jobs: Vec::new() }
    }

    fn position(&self, id: &str) -> (i: Option<usize>)
        requires
            self.wf(),
        ensures
            match i {
                Some(k) => k < self.records().len() && self.records()[k as int].id@ == id@,
                None => !self.view().contains_key(id@),
            },
    {
        let n = self.jobs.len();
        let mut k: usize = 0;
        while k < n
            invariant
                n == self.jobs@.len(),
                k <= n,
                forall|j: int| 0 <= j < k ==> (#[trigger] self.jobs@[j]).id@ != id@,
            decreases n - k,
        {
            if str_eq(self.jobs[k].id.as_str(), id) {
                return Some(k);
            }
            k += 1;
        }
        proof {
            lemma_jobs_by_id_keys(self.jobs@, id@);
        }
        None
    }

    /// Stores a job, replacing a stored job with the same id.
    pub fn insert(&mut self, job: JobRecord)
        requires
            old(self).wf(),
        ensures
            final(self).wf(),
            final(self).view() == old(self).view().insert(job.id@, job),
    {
        match self.position(job.id.as_str()) {
            Some(i) => {
                proof {
                    lemma_jobs_by_id_update(self.jobs@, i as int, job);
                }
                self.jobs.set(i, job);
            },
            None => {
                let ghost before = self.jobs@;
                proof {
                    lemma_jobs_by_id_keys(before, job.id@);
                }
                self.jobs.push(job);
                proof {
                    assert(self.jobs@.drop_last() =~= before);
                    assert forall|a: int, b: int|
                        0 <= a < self.jobs@.len() && 0 <= b < self.jobs@.len() && a != b implies (
                        #[trigger] self.jobs@[a]).id@ != (#[trigger] self.jobs@[b]).id@ by {
                        if a < before.len() && b < before.len() {
                            assert(before[a].id@ != before[b].id@);
                        } else if a < before.len() {
                            assert(before[a] == self.jobs@[a]);
                        } else {
                            assert(before[b] == self.jobs@[b]);
                        }
                    }
                }
            },
        }
    }

    /// The job with the given id, if stored.
    pub fn get(&self, id: &str) -> (j: Option<&JobRecord>)
        requires
            self.wf(),
        ensures
            match j {
                Some(r) => self.view().contains_key(id@) && *r == self.view()[id@],
                None => !self.view().contains_key(id@),
            },
    {
        match self.position(id) {
            Some(i) => {
                proof {
                    lemma_jobs_by_id_index(self.jobs@, i as int);
                }
                Some(&self.jobs[i])
            },
            None => None,
        }
    }

    /// The job whose results are asked for; an unknown id is `Job not found`.
    pub fn results(&self, id: &str) -> (r: Result<&JobRecord, ServerError>)
        requires
            self.wf(),
        ensures
            match r {
                Ok(j) => self.view().contains_key(id@) && *j == self.view()[id@],
                Err(e) => !self.view().contains_key(id@) && e.message@ == "Job not found"@,
            },
    {
        match self.get(id) {
            Some(j) => Ok(j),
            None => Err(ServerError::new("Job not found")),
        }
    }

    /// Marks a stored job as failed with the error message.
    pub fn mark_failed(&mut self, id: &str, error: String) -> (r: Result<(), ServerError>)
        requires
            old(self).wf(),
        ensures
            final(self).wf(),
            old(self).view().contains_key(id@) ==> r is Ok && final(self).view() == old(
                self,
            ).view().insert(id@, failed_job(old(self).view()[id@], error)),
            !old(self).view().contains_key(id@) ==> (r matches Err(e) && e.message@
                == "Job not found"@) && final(self).view() == old(self).view(),
    {
        match self.position(id) {
            Some(i) => {
                proof {
                    lemma_jobs_by_id_index(self.jobs@, i as int);
                    lemma_jobs_by_id_update(self.jobs@, i as int, failed_job(self.jobs@[i as int], error));
                }
                let ghost before = self.jobs@;
                let ghost err = error;
                self.jobs[i].status = JobStatus::Failed;
                self.jobs[i].error = Some(error);
                assert(self.jobs@ =~= before.update(i as int, failed_job(before[i as int], err)));
                Ok(())
            },
            None => Err(ServerError::new("Job not found")),
        }
    }

    /// Marks a stored job as completed with its frame count and scene.
    pub fn mark_completed(&mut self, id: &str, total_frames: u32, scene_name: String) -> (r: Result<
        (),
        ServerError,
    >)
        requires
            old(self).wf(),
        ensures
            final(self).wf(),
            old(self).view().contains_key(id@) ==> r is Ok && final(self).view() == old(
                self,
            ).view().insert(id@, completed_job(old(self).view()[id@], total_frames, scene_name)),
            !old(self).view().contains_key(id@) ==> (r matches Err(e) && e.message@
                == "Job not found"@) && final(self).view() == old(self).view(),
    {
        match self.position(id) {
            Some(i) => {
                proof {
                    lemma_jobs_by_id_index(self.jobs@, i as int);
                    lemma_jobs_by_id_update(
                        self.jobs@,
                        i as int,
                        completed_job(self.jobs@[i as int], total_frames, scene_name),
                    );
                }
                let ghost before = self.jobs@;
                let ghost name = scene_name;
                self.jobs[i].status = JobStatus::Completed;
                self.jobs[i].total_frames = Some(total_frames);
                self.jobs[i].scene_name = Some(scene_name);
                assert(self.jobs@ =~= before.update(
                    i as int,
                    completed_job(before[i as int], total_frames, name),
                ));
                Ok(())
            },
            None => Err(ServerError::new("Job not found")),
        }
    }

    /// All stored jobs, each once.
    pub fn list(&self) -> (v: &[JobRecord])
        requires
            self.wf(),
        ensures
            distinct_ids(v@),
            forall|k: Seq<char>|
                #[trigger] self.view().contains_key(k) <==> exists|i: int|
                    0 <= i < v@.len() && (#[trigger] v@[i]).id@ == k,
            forall|i: int| 0 <= i < v@.len() ==> self.view()[(#[trigger] v@[i]).id@] == v@[i],
    {
        proof {
            assert forall|k: Seq<char>|
                #[trigger] self.view().contains_key(k) <==> exists|i: int|
                    0 <= i < self.jobs@.len() && (#[trigger] self.jobs@[i]).id@ == k by {
                lemma_jobs_by_id_keys(self.jobs@, k);
            }
            assert forall|i: int| 0 <= i < self.jobs@.len() implies self.view()[(
            #[trigger] self.jobs@[i]).id@] == self.jobs@[i] by {
                lemma_jobs_by_id_index(self.jobs@, i);
            }
        }
        self.jobs.as_slice()
    }
}

/// A job that is stored and then marked failed, or completed, reads back
/// with its id, model and scenes as stored, the new status and what the
/// mark added; every other job reads back as before the job was stored.
pub proof fn lemma_job_lifecycle(
    before: Map<Seq<char>, JobRecord>,
    job: JobRecord,
    error: String,
    total_frames: u32,
    scene_name: String,
)
    ensures
        ({
            let stored = before.insert(job.id@, job);
            let failed = stored.insert(job.id@, failed_job(stored[job.id@], error));
            let done = stored.insert(job.id@, completed_job(stored[job.id@], total_frames, scene_name));
            &&& stored.contains_key(job.id@) && stored[job.id@] == job
            &&& failed[job.id@].status == JobStatus::Failed && failed[job.id@].error == Some(error)
            &&& failed[job.id@].id == job.id && failed[job.id@].model_name == job.model_name
                && failed[job.id@].scenes == job.scenes
            &&& done[job.id@].status == JobStatus::Completed && done[job.id@].total_frames == Some(
                total_frames,
            ) && done[job.id@].scene_name == Some(scene_name)
            &&& done[job.id@].id == job.id && done[job.id@].error == job.error
            &&& forall|k: Seq<char>|
                k != job.id@ ==> (#[trigger] failed.contains_key(k) == before.contains_key(k)
                    && done.contains_key(k) == before.contains_key(k) && (before.contains_key(k)
                    ==> failed[k] == before[k] && done[k] == before[k]))
        }),
{
}

} // verus!
