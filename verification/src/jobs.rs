//! The registry of asynchronous file-transcription jobs: jobs expire an hour
//! after submission, and the registry is capped by evicting the oldest
//! finished jobs, never one still in flight.
use vstd::prelude::*;
use vstd::string::StringExecFns;
use crate::text::str_eq;

verus! {

broadcast use vstd::string::group_string_axioms;

/// Status of a job whose transcript has aged out of the registry.
pub const JOB_STATUS_EXPIRED: &'static str = "expired";

/// How long a job's transcript stays readable after submission, in
/// milliseconds (one hour).
pub const JOB_TTL_MS: u64 = 3_600_000;

/// Cap on registry entries, beyond which the oldest finished jobs are
/// dropped.
pub const MAX_JOBS: usize = 512;

/// A transcription job.
#[derive(Debug, Clone)]
pub struct TranscribeJob {
    /// `queued`, `processing`, `completed`, `failed` or `expired`.
    pub status: String,
    /// The transcript, once completed.
    pub transcript: Option<String>,
    /// The error, once failed.
    pub error: Option<String>,
    /// When the job was submitted, in milliseconds on a monotonic clock.
    pub created_ms: u64,
}

/// A job by its text.
pub struct JobView {
    /// The status.
    pub status: Seq<char>,
    /// The transcript.
    pub transcript: Option<Seq<char>>,
    /// The error.
    pub error: Option<Seq<char>>,
    /// Submission time.
    pub created_ms: u64,
}

/// An optional string by its text.
pub open spec fn opt_view(o: Option<String>) -> Option<Seq<char>> {
    match o {
        Some(s) => Some(s@),
        None => None,
    }
}

/// A job by its text.
pub open spec fn job_view(j: TranscribeJob) -> JobView {
    JobView { status: j.status@, transcript: opt_view(j.transcript), error: opt_view(j.error), created_ms: j.created_ms }
}

/// Registry entries by their text.
pub open spec fn entries_view(v: Seq<(String, TranscribeJob)>) -> Seq<(Seq<char>, JobView)> {
    v.map_values(|e: (String, TranscribeJob)| (e.0@, job_view(e.1)))
}

/// The time to live has passed at `now_ms` for a job created at
/// `created_ms`; a creation time after `now_ms` counts as no time passed.
pub open spec fn ttl_elapsed(created_ms: u64, now_ms: u64) -> bool {
    now_ms >= created_ms && now_ms - created_ms >= JOB_TTL_MS
}

/// A job as it stands at `now_ms`: one past its time to live, and not already
/// expired, becomes expired and loses its transcript and error.
pub open spec fn expired_view(v: JobView, now_ms: u64) -> JobView {
    if v.status != JOB_STATUS_EXPIRED@ && ttl_elapsed(v.created_ms, now_ms) {
        JobView { status: JOB_STATUS_EXPIRED@, transcript: None, error: None, created_ms: v.created_ms }
    } else {
        v
    }
}

/// Every entry of a registry view as it stands at `now_ms`.
pub open spec fn expire_all(s: Seq<(Seq<char>, JobView)>, now_ms: u64) -> Seq<(Seq<char>, JobView)> {
    s.map_values(|e: (Seq<char>, JobView)| (e.0, expired_view(e.1, now_ms)))
}

/// A job that has finished (completed, failed or expired) and may be
/// evicted; queued and processing jobs may not.
pub open spec fn evictable(v: JobView) -> bool {
    v.status == "completed"@ || v.status == "failed"@ || v.status == JOB_STATUS_EXPIRED@
}

/// No two entries share an identifier.
pub open spec fn distinct_ids(s: Seq<(Seq<char>, JobView)>) -> bool {
    forall|i: int, j: int| 0 <= i < j < s.len() ==> #[trigger] s[i].0 != #[trigger] s[j].0
}

/// The number of entries beyond the cap.
pub open spec fn excess(n: int) -> int {
    if n > MAX_JOBS { n - MAX_JOBS } else { 0 }
}

/// `f` is `s` with `(id, v)` registered: it replaces the entry with that
/// identifier, or is added at the end when there is none.
pub open spec fn inserted(s: Seq<(Seq<char>, JobView)>, id: Seq<char>, v: JobView, f: Seq<(Seq<char>, JobView)>) -> bool {
    ||| exists|i: int| 0 <= i < s.len() && #[trigger] s[i].0 == id && f == s.update(i, (id, v))
    ||| (forall|i: int| 0 <= i < s.len() ==> #[trigger] s[i].0 != id) && f == s.push((id, v))
}

/// `f` is `s` with the job under `id`, if any, changed by `change`.
pub open spec fn changed_at(
    s: Seq<(Seq<char>, JobView)>,
    id: Seq<char>,
    change: spec_fn(JobView) -> JobView,
    f: Seq<(Seq<char>, JobView)>,
) -> bool {
    ||| exists|i: int| 0 <= i < s.len() && #[trigger] s[i].0 == id && f == s.update(i, (id, change(s[i].1)))
    ||| (forall|i: int| 0 <= i < s.len() ==> #[trigger] s[i].0 != id) && f == s
}

/// In-memory registry of transcription jobs, keyed by job identifier.
pub struct JobRegistry {
    /// The jobs, each under its identifier.
    pub entries: Vec<(String, TranscribeJob)>,
}

fn clone_job(j: &TranscribeJob) -> (r: TranscribeJob)
    ensures
        r == *j,
{
    TranscribeJob {
        status: j.status.clone(),
        transcript: match &j.transcript {
            Some(t) => Some(t.clone()),
            None => None,
        },
        error: match &j.error {
            Some(e) => Some(e.clone()),
            None => None,
        },
        created_ms: j.created_ms,
    }
}

fn is_evictable(j: &TranscribeJob) -> (r: bool)
    ensures
        r == evictable(job_view(*j)),
{
    proof {
        reveal_strlit("completed");
        reveal_strlit("failed");
    }
    str_eq(j.status.as_str(), "completed") || str_eq(j.status.as_str(), "failed") || str_eq(
        j.status.as_str(),
        JOB_STATUS_EXPIRED,
    )
}

/// The job as it stands at `now_ms`.
fn expire_job(j: TranscribeJob, now_ms: u64) -> (r: TranscribeJob)
    ensures
        job_view(r) == expired_view(job_view(j), now_ms),
{
    if !str_eq(j.status.as_str(), JOB_STATUS_EXPIRED) && now_ms >= j.created_ms && now_ms - j.created_ms >= JOB_TTL_MS {
        TranscribeJob {
            status: String::from_str(JOB_STATUS_EXPIRED),
            transcript: None,
            error: None,
            created_ms: j.created_ms,
        }
    } else {
        j
    }
}

impl JobRegistry {
    /// The registry by its text.
    pub open spec fn view(&self) -> Seq<(Seq<char>, JobView)> {
        entries_view(self.entries@)
    }

    /// No two jobs share an identifier.
    pub open spec fn wf(&self) -> bool {
        distinct_ids(self.view())
    }

    /// An empty registry.
    pub fn new() -> (r: Self)
        ensures
            r.wf(),
            r.view().len() == 0,
    {
        let r = JobRegistry { entries: Vec::new() };
        assert(r.view() =~= Seq::<(Seq<char>, JobView)>::empty());
        r
    }

    /// The number of jobs.
    pub fn len(&self) -> (r: usize)
        ensures
            r == self.view().len(),
    {
        self.entries.len()
    }

    /// The position of the job with identifier `id`, if there is one.
    fn position(&self, id: &str) -> (r: Option<usize>)
        ensures
            match r {
                Some(i) => i < self.view().len() && self.view()[i as int].0 == id@,
                None => forall|i: int| 0 <= i < self.view().len() ==> #[trigger] self.view()[i].0 != id@,
            },
    {
        let mut i: usize = 0;
        while i < self.entries.len()
            invariant
                i <= self.entries@.len(),
                forall|j: int| 0 <= j < i ==> #[trigger] self.view()[j].0 != id@,
            decreases self.entries@.len() - i,
        {
            if str_eq(self.entries[i].0.as_str(), id) {
                return Some(i);
            }
            i = i + 1;
        }
        None
    }

    /// Whether a job with identifier `id` is registered.
    pub fn contains_key(&self, id: &str) -> (r: bool)
        ensures
            r == exists|i: int| 0 <= i < self.view().len() && #[trigger] self.view()[i].0 == id@,
    {
        self.position(id).is_some()
    }

    /// The job with identifier `id`, if registered.
    pub fn get(&self, id: &str) -> (r: Option<&TranscribeJob>)
        ensures
            r matches Some(j) ==> exists|i: int|
                0 <= i < self.view().len() && self.view()[i].0 == id@ && #[trigger] self.entries@[i].1 == *j,
            r is None ==> forall|i: int| 0 <= i < self.view().len() ==> #[trigger] self.view()[i].0 != id@,
    {
        match self.position(id) {
            Some(i) => Some(&self.entries[i].1),
            None => None,
        }
    }

    /// Register `job` under `id`, replacing any job already there.
    pub fn insert(&mut self, id: String, job: TranscribeJob)
        requires
            old(self).wf(),
        ensures
            final(self).wf(),
            inserted(old(self).view(), id@, job_view(job), final(self).view()),
    {
        let ghost v = self.view();
        let ghost idv = id@;
        let ghost jv = job_view(job);
        match self.position(id.as_str()) {
            Some(i) => {
                self.entries.set(i, (id, job));
                assert(self.view() =~= v.update(i as int, (idv, jv)));
                assert forall|a: int, b: int| 0 <= a < b < self.view().len() implies #[trigger] self.view()[a].0
                    != #[trigger] self.view()[b].0 by {
                    assert(self.view()[a].0 == v[a].0 && self.view()[b].0 == v[b].0);
                }
            },
            None => {
                self.entries.push((id, job));
                assert(self.view() =~= v.push((idv, jv)));
                assert forall|a: int, b: int| 0 <= a < b < self.view().len() implies #[trigger] self.view()[a].0
                    != #[trigger] self.view()[b].0 by {
                    if b < v.len() {
                        assert(self.view()[a].0 == v[a].0 && self.view()[b].0 == v[b].0);
                    } else {
                        assert(self.view()[a].0 == v[a].0);
                    }
                }
            },
        }
    }

    /// Replace the job at position `i`, keeping its identifier.
    fn replace_job(&mut self, i: usize, job: TranscribeJob)
        requires
            old(self).wf(),
            i < old(self).view().len(),
        ensures
            final(self).wf(),
            final(self).view() == old(self).view().update(i as int, (old(self).view()[i as int].0, job_view(job))),
    {
        let ghost v = self.view();
        let id = self.entries[i].0.clone();
        let ghost jv = job_view(job);
        self.entries.set(i, (id, job));
        assert(self.view() =~= v.update(i as int, (v[i as int].0, jv)));
        assert forall|a: int, b: int| 0 <= a < b < self.view().len() implies #[trigger] self.view()[a].0
            != #[trigger] self.view()[b].0 by {
            assert(self.view()[a].0 == v[a].0 && self.view()[b].0 == v[b].0);
        }
    }

    /// Mark the job under `id`, if any, as processing.
    pub fn mark_processing(&mut self, id: &str)
        requires
            old(self).wf(),
        ensures
            final(self).wf(),
            changed_at(old(self).view(), id@, |v: JobView| JobView { status: "processing"@, ..v }, final(self).view()),
    {
        match self.position(id) {
            Some(i) => {
                let ghost v = self.view();
                let old_job = clone_job(&self.entries[i].1);
                let job = TranscribeJob { status: String::from_str("processing"), ..old_job };
                self.replace_job(i, job);
                assert(self.view() == v.update(i as int, (id@, JobView { status: "processing"@, ..v[i as int].1 })));
            },
            None => {},
        }
    }

    /// Record the outcome of the job under `id`, if any: a transcript
    /// completes it, an error fails it.
    pub fn finish(&mut self, id: &str, outcome: Result<String, String>)
        requires
            old(self).wf(),
        ensures
            final(self).wf(),
            outcome matches Ok(t) ==> changed_at(
                old(self).view(),
                id@,
                |v: JobView| JobView { status: "completed"@, transcript: Some(t@), ..v },
                final(self).view(),
            ),
            outcome matches Err(e) ==> changed_at(
                old(self).view(),
                id@,
                |v: JobView| JobView { status: "failed"@, error: Some(e@), ..v },
                final(self).view(),
            ),
    {
        match self.position(id) {
            Some(i) => {
                let ghost v = self.view();
                let old_job = clone_job(&self.entries[i].1);
                match outcome {
                    Ok(t) => {
                        let ghost tv = t@;
                        let job = TranscribeJob { status: String::from_str("completed"), transcript: Some(t), ..old_job };
                        self.replace_job(i, job);
                        assert(self.view() == v.update(
                            i as int,
                            (id@, JobView { status: "completed"@, transcript: Some(tv), ..v[i as int].1 }),
                        ));
                    },
                    Err(e) => {
                        let ghost evw = e@;
                        let job = TranscribeJob { status: String::from_str("failed"), error: Some(e), ..old_job };
                        self.replace_job(i, job);
                        assert(self.view() == v.update(
                            i as int,
                            (id@, JobView { status: "failed"@, error: Some(evw), ..v[i as int].1 }),
                        ));
                    },
                }
            },
            None => {},
        }
    }

    /// Look up the job under `id` at `now_ms`. A job past its time to live
    /// is expired first, so a late poll reports `expired` rather than
    /// nothing.
    pub fn lookup(&mut self, id: &str, now_ms: u64) -> (r: Option<TranscribeJob>)
        requires
            old(self).wf(),
        ensures
            final(self).wf(),
            changed_at(old(self).view(), id@, |v: JobView| expired_view(v, now_ms), final(self).view()),
            r is None <==> forall|i: int| 0 <= i < old(self).view().len() ==> #[trigger] old(self).view()[i].0 != id@,
            r matches Some(j) ==> exists|i: int|
                0 <= i < old(self).view().len() && old(self).view()[i].0 == id@ && #[trigger] job_view(j)
                    == expired_view(old(self).view()[i].1, now_ms),
    {
        match self.position(id) {
            Some(i) => {
                let ghost v = self.view();
                let job = clone_job(&self.entries[i].1);
                let e = expire_job(job, now_ms);
                let out = clone_job(&e);
                self.replace_job(i, e);
                assert(self.view() == v.update(i as int, (id@, expired_view(v[i as int].1, now_ms))));
                Some(out)
            },
            None => None,
        }
    }

    /// Expire every job past its time to live.
    fn expire_all_jobs(&mut self, now_ms: u64)
        requires
            old(self).wf(),
        ensures
            final(self).view() == expire_all(old(self).view(), now_ms),
            final(self).wf(),
    {
        let ghost v = self.view();
        let mut i: usize = 0;
        while i < self.entries.len()
            invariant
                i <= self.entries@.len(),
                self.entries@.len() == v.len(),
                v == old(self).view(),
                forall|k: int| 0 <= k < i ==> #[trigger] self.view()[k] == (v[k].0, expired_view(v[k].1, now_ms)),
                forall|k: int| i <= k < v.len() ==> #[trigger] self.view()[k] == v[k],
            decreases v.len() - i,
        {
            let id = self.entries[i].0.clone();
            let job = clone_job(&self.entries[i].1);
            let ghost before = self.view();
            assert(before[i as int] == v[i as int]);
            assert(before[i as int] == (self.entries@[i as int].0@, job_view(self.entries@[i as int].1)));
            let e = expire_job(job, now_ms);
            let ghost ev = (id@, job_view(e));
            assert(ev == (v[i as int].0, expired_view(v[i as int].1, now_ms)));
            self.entries.set(i, (id, e));
            assert(self.view() =~= before.update(i as int, ev));
            i = i + 1;
        }
        assert(self.view() =~= expire_all(v, now_ms));
    }

    /// The position of the oldest evictable job (the first among equally old
    /// ones), if there is any.
    fn oldest_evictable(&self) -> (r: Option<usize>)
        ensures
            match r {
                Some(p) => p < self.view().len() && evictable(self.view()[p as int].1) && forall|i: int|
                    0 <= i < self.view().len() && evictable(#[trigger] self.view()[i].1) ==> self.view()[p as int].1.created_ms
                        <= self.view()[i].1.created_ms,
                None => forall|i: int| 0 <= i < self.view().len() ==> !evictable(#[trigger] self.view()[i].1),
            },
    {
        let mut best: Option<usize> = None;
        let mut i: usize = 0;
        while i < self.entries.len()
            invariant
                i <= self.entries@.len(),
                match best {
                    Some(p) => p < i && evictable(self.view()[p as int].1) && forall|k: int|
                        0 <= k < i && evictable(#[trigger] self.view()[k].1) ==> self.view()[p as int].1.created_ms
                            <= self.view()[k].1.created_ms,
                    None => forall|k: int| 0 <= k < i ==> !evictable(#[trigger] self.view()[k].1),
                },
            decreases self.entries@.len() - i,
        {
            if is_evictable(&self.entries[i].1) {
                match best {
                    Some(p) => {
                        if self.entries[i].1.created_ms < self.entries[p].1.created_ms {
                            best = Some(i);
                        }
                    },
                    None => {
                        best = Some(i);
                    },
                }
            }
            i = i + 1;
        }
        best
    }
}

/// What pruning keeps of the expired registry `e` in `f`: every kept job is
/// one of `e`, no unfinished job is evicted, and no kept finished job is
/// older than an evicted one.
pub open spec fn prune_keeps(e: Seq<(Seq<char>, JobView)>, f: Seq<(Seq<char>, JobView)>) -> bool {
    &&& forall|i: int| 0 <= i < f.len() ==> e.contains(#[trigger] f[i])
    &&& forall|j: int| 0 <= j < e.len() && !evictable(#[trigger] e[j].1) ==> f.contains(e[j])
    &&& forall|i: int, j: int|
        0 <= i < f.len() && 0 <= j < e.len() && evictable(#[trigger] f[i].1) && evictable(#[trigger] e[j].1)
            && e[j].1.created_ms > f[i].1.created_ms ==> f.contains(e[j])
}

/// The number of finished (evictable) jobs in a registry view.
pub open spec fn finished_count(s: Seq<(Seq<char>, JobView)>) -> nat
    decreases s.len(),
{
    if s.len() == 0 {
        0
    } else {
        finished_count(s.drop_last()) + if evictable(s.last().1) {
            1nat
        } else {
            0nat
        }
    }
}

/// Removing one job removes one finished job exactly when it was finished.
proof fn lemma_finished_count_remove(s: Seq<(Seq<char>, JobView)>, p: int)
    requires
        0 <= p < s.len(),
    ensures
        finished_count(s.remove(p)) + (if evictable(s[p].1) {
            1int
        } else {
            0int
        }) == finished_count(s),
    decreases s.len(),
{
    if p == s.len() - 1 {
        assert(s.remove(p) =~= s.drop_last());
    } else {
        lemma_finished_count_remove(s.drop_last(), p);
        assert(s.remove(p).drop_last() =~= s.drop_last().remove(p));
        assert(s.remove(p).last() == s.last());
    }
}

/// A registry without finished jobs counts none.
proof fn lemma_finished_count_none(s: Seq<(Seq<char>, JobView)>)
    requires
        forall|i: int| 0 <= i < s.len() ==> !evictable(#[trigger] s[i].1),
    ensures
        finished_count(s) == 0,
    decreases s.len(),
{
    if s.len() > 0 {
        assert forall|i: int| 0 <= i < s.drop_last().len() implies !evictable(#[trigger] s.drop_last()[i].1) by {
            assert(s.drop_last()[i] == s[i]);
        }
        lemma_finished_count_none(s.drop_last());
        assert(!evictable(s[s.len() - 1].1));
    }
}

/// The smaller of two integers.
pub open spec fn min_of(a: int, b: int) -> int {
    if a <= b {
        a
    } else {
        b
    }
}

/// Evicting the oldest finished job `s[p]` keeps what pruning promises.
proof fn lemma_evict_step(e: Seq<(Seq<char>, JobView)>, s: Seq<(Seq<char>, JobView)>, p: int)
    requires
        prune_keeps(e, s),
        distinct_ids(s),
        0 <= p < s.len(),
        evictable(s[p].1),
        forall|i: int| 0 <= i < s.len() && evictable(#[trigger] s[i].1) ==> s[p].1.created_ms <= s[i].1.created_ms,
    ensures
        prune_keeps(e, s.remove(p)),
        distinct_ids(s.remove(p)),
{
    let t = s.remove(p);
    assert forall|i: int, j: int| 0 <= i < j < t.len() implies #[trigger] t[i].0 != #[trigger] t[j].0 by {
        let a = if i < p { i } else { i + 1 };
        let b = if j < p { j } else { j + 1 };
        assert(t[i] == s[a] && t[j] == s[b]);
    }
    assert forall|i: int| 0 <= i < t.len() implies e.contains(#[trigger] t[i]) by {
        let a = if i < p { i } else { i + 1 };
        assert(t[i] == s[a]);
    }
    assert forall|j: int| 0 <= j < e.len() && !evictable(#[trigger] e[j].1) implies t.contains(e[j]) by {
        assert(s.contains(e[j]));
        let i = choose|i: int| 0 <= i < s.len() && s[i] == e[j];
        assert(i != p);
        if i < p {
            assert(t[i] == e[j]);
        } else {
            assert(t[i - 1] == e[j]);
        }
    }
    assert forall|i: int, j: int|
        0 <= i < t.len() && 0 <= j < e.len() && evictable(#[trigger] t[i].1) && evictable(#[trigger] e[j].1)
            && e[j].1.created_ms > t[i].1.created_ms implies t.contains(e[j]) by {
        let a = if i < p { i } else { i + 1 };
        assert(t[i] == s[a]);
        assert(s.contains(e[j]));
        let k = choose|k: int| 0 <= k < s.len() && s[k] == e[j];
        assert(s[p].1.created_ms <= s[a].1.created_ms);
        assert(k != p);
        if k < p {
            assert(t[k] == e[j]);
        } else {
            assert(t[k - 1] == e[j]);
        }
    }
}

/// Expire aged-out transcripts and enforce [`MAX_JOBS`] by evicting the
/// oldest finished jobs. With `e` the registry once expired: what
/// [`prune_keeps`] states holds, nothing is evicted while `e` is within the
/// cap, and otherwise the registry is brought down to the cap unless no
/// finished job is left.
pub fn prune_jobs(jobs: &mut JobRegistry, now_ms: u64)
    requires
        old(jobs).wf(),
    ensures
        final(jobs).wf(),
        ({
            let e = expire_all(old(jobs).view(), now_ms);
            let f = final(jobs).view();
            &&& prune_keeps(e, f)
            &&& e.len() <= MAX_JOBS ==> f == e
            &&& e.len() > MAX_JOBS ==> f.len() >= MAX_JOBS && (f.len() == MAX_JOBS || forall|i: int|
                0 <= i < f.len() ==> !evictable(#[trigger] f[i].1))
            &&& e.len() - f.len() == min_of(excess(e.len() as int), finished_count(e) as int)
        }),
{
    jobs.expire_all_jobs(now_ms);
    let ghost e = jobs.view();
    assert forall|i: int| 0 <= i < e.len() implies e.contains(#[trigger] e[i]) by {
        assert(e[i] == e[i]);
    }
    let n = jobs.entries.len();
    if n <= MAX_JOBS {
        return;
    }
    assert(jobs.view().len() == n);
    let over = n - MAX_JOBS;
    let mut removed: usize = 0;
    while removed < over
        invariant
            n == e.len(),
            over == n - MAX_JOBS,
            removed <= over,
            jobs.view().len() == n - removed,
            jobs.wf(),
            prune_keeps(e, jobs.view()),
            finished_count(jobs.view()) + removed == finished_count(e),
        ensures
            jobs.view().len() == n - removed,
            jobs.wf(),
            prune_keeps(e, jobs.view()),
            finished_count(jobs.view()) + removed == finished_count(e),
            removed == over || forall|i: int| 0 <= i < jobs.view().len() ==> !evictable(#[trigger] jobs.view()[i].1),
        decreases over - removed,
    {
        match jobs.oldest_evictable() {
            None => {
                break;
            },
            Some(p) => {
                let ghost s = jobs.view();
                let _gone = jobs.entries.remove(p);
                proof {
                    assert(jobs.view() =~= s.remove(p as int));
                    lemma_evict_step(e, s, p as int);
                    lemma_finished_count_remove(s, p as int);
                }
                removed = removed + 1;
            },
        }
    }
    proof {
        if removed != over {
            lemma_finished_count_none(jobs.view());
        }
    }
}

impl JobRegistry {
    /// Register a new queued job under `id`, submitted at `now_ms`, after
    /// pruning the registry.
    pub fn submit(&mut self, id: String, now_ms: u64)
        requires
            old(self).wf(),
        ensures
            final(self).wf(),
            exists|mid: Seq<(Seq<char>, JobView)>| #[trigger] prune_keeps(expire_all(old(self).view(), now_ms), mid)
                && inserted(
                mid,
                id@,
                JobView { status: "queued"@, transcript: None, error: None, created_ms: now_ms },
                final(self).view(),
            ),
    {
        prune_jobs(self, now_ms);
        let ghost mid = self.view();
        let job = TranscribeJob { status: String::from_str("queued"), transcript: None, error: None, created_ms: now_ms };
        self.insert(id, job);
        assert(prune_keeps(expire_all(old(self).view(), now_ms), mid));
    }
}

} // verus!
