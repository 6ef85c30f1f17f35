//! The registry of running and recent backup and restore jobs.
use vstd::prelude::*;
use crate::clock::{Timestamp, is_clock_time, utc_now};
use crate::ids::new_id;

verus! {

/// How many finished jobs the registry keeps.
pub const MAX_HISTORY: usize = 50;

/// Where a job stands.
#[derive(Clone, Copy, Debug, PartialEq, Eq, Structural)]
pub enum JobState {
    Running,
    Succeeded,
    Failed,
}

/// Who asked for a job.
#[derive(Clone, Copy, Debug, PartialEq, Eq, Structural)]
pub enum JobSource {
    Manual,
    Scheduled,
}

/// What a job does.
#[derive(Clone, Copy, Debug, PartialEq, Eq, Structural)]
pub enum JobKind {
    Backup,
    Restore,
}

/// Live progress of a dump.
#[derive(Debug)]
pub struct JobProgress {
    pub current_collection: Option<String>,
    pub collections_done: u32,
    pub last_log: Option<String>,
}

/// The value of a `JobProgress`.
pub struct JobProgressView {
    pub current_collection: Option<Seq<char>>,
    pub collections_done: u32,
    pub last_log: Option<Seq<char>>,
}

/// The value of an optional string.
pub open spec fn opt_view(o: Option<String>) -> Option<Seq<char>> {
    match o {
        Some(s) => Some(s@),
        None => None,
    }
}

/// A copy of an optional string.
pub fn clone_opt(o: &Option<String>) -> (r: Option<String>)
    ensures
        opt_view(r) == opt_view(*o),
{
    match o {
        Some(s) => Some(s.clone()),
        None => None,
    }
}

impl View for JobProgress {
    type V = JobProgressView;

    open spec fn view(&self) -> JobProgressView {
        JobProgressView {
            current_collection: opt_view(self.current_collection),
            collections_done: self.collections_done,
            last_log: opt_view(self.last_log),
        }
    }
}

impl Clone for JobProgress {
    fn clone(&self) -> (r: Self)
        ensures
            r@ == self@,
    {
        JobProgress {
            current_collection: clone_opt(&self.current_collection),
            collections_done: self.collections_done,
            last_log: clone_opt(&self.last_log),
        }
    }
}

impl JobProgress {
    /// No progress yet.
    pub fn new() -> (p: Self)
        ensures
            p@ == (JobProgressView { current_collection: None, collections_done: 0, last_log: None }),
    {
        JobProgress { current_collection: None, collections_done: 0, last_log: None }
    }
}

/// One backup or restore run.
#[derive(Debug)]
pub struct Job {
    pub id: u128,
    pub kind: JobKind,
    pub connection_id: Option<u128>,
    pub connection_label: String,
    pub database: String,
    pub source: JobSource,
    pub state: JobState,
    pub started_at: Timestamp,
    pub finished_at: Option<Timestamp>,
    pub message: Option<String>,
    pub progress: JobProgress,
}

/// The value of a `Job`.
pub struct JobView {
    pub id: u128,
    pub kind: JobKind,
    pub connection_id: Option<u128>,
    pub connection_label: Seq<char>,
    pub database: Seq<char>,
    pub source: JobSource,
    pub state: JobState,
    pub started_at: Timestamp,
    pub finished_at: Option<Timestamp>,
    pub message: Option<Seq<char>>,
    pub progress: JobProgressView,
}

impl View for Job {
    type V = JobView;

    open spec fn view(&self) -> JobView {
        JobView {
            id: self.id,
            kind: self.kind,
            connection_id: self.connection_id,
            connection_label: self.connection_label@,
            database: self.database@,
            source: self.source,
            state: self.state,
            started_at: self.started_at,
            finished_at: self.finished_at,
            message: opt_view(self.message),
            progress: self.progress@,
        }
    }
}

impl DeepView for Job {
    type V = JobView;

    open spec fn deep_view(&self) -> JobView {
        self@
    }
}

impl Clone for Job {
    fn clone(&self) -> (r: Self)
        ensures
            r@ == self@,
    {
        Job {
            id: self.id,
            kind: self.kind,
            connection_id: self.connection_id,
            connection_label: self.connection_label.clone(),
            database: self.database.clone(),
            source: self.source,
            state: self.state,
            started_at: self.started_at,
            finished_at: self.finished_at,
            message: clone_opt(&self.message),
            progress: self.progress.clone(),
        }
    }
}

/// A change in the state of the jobs, as pushed to listeners.
#[derive(Debug)]
pub enum JobEvent {
    Snapshot { jobs: Vec<Job> },
    Started { job: Job },
    Progress { job: Job },
    Finished { job: Job },
}

/// A change to a running job's progress, read from a line of the dump tool's output.
#[derive(Debug)]
pub enum ProgressUpdate {
    /// The tool started writing `collection`.
    Writing { collection: String, log: String },
    /// The tool finished a collection.
    Done { log: String },
    /// A line worth showing, with no change to the counters.
    Log { log: String },
}

/// The value of a `ProgressUpdate`.
pub enum ProgressUpdateView {
    Writing { collection: Seq<char>, log: Seq<char> },
    Done { log: Seq<char> },
    Log { log: Seq<char> },
}

impl View for ProgressUpdate {
    type V = ProgressUpdateView;

    open spec fn view(&self) -> ProgressUpdateView {
        match self {
            ProgressUpdate::Writing { collection, log } => ProgressUpdateView::Writing {
                collection: collection@,
                log: log@,
            },
            ProgressUpdate::Done { log } => ProgressUpdateView::Done { log: log@ },
            ProgressUpdate::Log { log } => ProgressUpdateView::Log { log: log@ },
        }
    }
}

/// `n + 1`, or `n` where that does not fit in a `u32`.
pub open spec fn saturating_inc(n: u32) -> u32 {
    if n == u32::MAX {
        n
    } else {
        (n + 1) as u32
    }
}

/// Progress `p` after the update `u`.
pub open spec fn progressed(p: JobProgressView, u: ProgressUpdateView) -> JobProgressView {
    match u {
        ProgressUpdateView::Writing { collection, log } => JobProgressView {
            current_collection: Some(collection),
            last_log: Some(log),
            ..p
        },
        ProgressUpdateView::Done { log } => JobProgressView {
            current_collection: None,
            collections_done: saturating_inc(p.collections_done),
            last_log: Some(log),
        },
        ProgressUpdateView::Log { log } => JobProgressView { last_log: Some(log), ..p },
    }
}

/// Progress `p` after the updates `us`, applied in order.
pub open spec fn progressed_all(p: JobProgressView, us: Seq<ProgressUpdateView>) -> JobProgressView
    decreases us.len(),
{
    if us.len() == 0 {
        p
    } else {
        progressed(progressed_all(p, us.drop_last()), us.last())
    }
}

/// How many of the updates `us` report a finished collection.
pub open spec fn done_count(us: Seq<ProgressUpdateView>) -> nat
    decreases us.len(),
{
    if us.len() == 0 {
        0
    } else {
        done_count(us.drop_last()) + if us.last() is Done { 1nat } else { 0nat }
    }
}

/// One update: a `Writing` update names the current collection and keeps the count; a
/// `Done` update adds one finished collection (up to `u32::MAX`) and clears the current
/// one; a `Log` update keeps both. Each shows its line as the last log.
pub proof fn lemma_progress_step(p: JobProgressView, u: ProgressUpdateView)
    ensures
        u matches ProgressUpdateView::Writing { collection, log } ==> {
            &&& progressed(p, u).collections_done == p.collections_done
            &&& progressed(p, u).current_collection == Some(collection)
            &&& progressed(p, u).last_log == Some(log)
        },
        u matches ProgressUpdateView::Done { log } ==> {
            &&& progressed(p, u).collections_done as int == if p.collections_done < u32::MAX { p.collections_done + 1 } else { p.collections_done as int }
            &&& progressed(p, u).current_collection is None
            &&& progressed(p, u).last_log == Some(log)
        },
        u matches ProgressUpdateView::Log { log } ==> {
            &&& progressed(p, u).collections_done == p.collections_done
            &&& progressed(p, u).current_collection == p.current_collection
            &&& progressed(p, u).last_log == Some(log)
        },
{
}

/// The count of finished collections after a run of updates is the count before plus the
/// number of `Done` updates among them, up to `u32::MAX`; `Writing` and `Log` updates never
/// change it.
pub proof fn lemma_progress_counts_done(p: JobProgressView, us: Seq<ProgressUpdateView>)
    ensures
        progressed_all(p, us).collections_done as int == if p.collections_done + done_count(us) <= u32::MAX {
            p.collections_done + done_count(us)
        } else {
            u32::MAX as int
        },
    decreases us.len(),
{
    if us.len() > 0 {
        lemma_progress_counts_done(p, us.drop_last());
        lemma_progress_step(progressed_all(p, us.drop_last()), us.last());
    }
}

/// The job `j` finished at `at` with `outcome` (its message on success or failure).
pub open spec fn finished(j: JobView, outcome: Result<Seq<char>, Seq<char>>, at: Timestamp) -> JobView {
    match outcome {
        Ok(m) => JobView { state: JobState::Succeeded, message: Some(m), finished_at: Some(at), ..j },
        Err(m) => JobView { state: JobState::Failed, message: Some(m), finished_at: Some(at), ..j },
    }
}

/// The value of a run's outcome.
pub open spec fn outcome_view(r: Result<String, String>) -> Result<Seq<char>, Seq<char>> {
    match r {
        Ok(m) => Ok(m@),
        Err(m) => Err(m@),
    }
}

/// `j` is no longer running.
pub open spec fn is_done(j: JobView) -> bool {
    j.state != JobState::Running
}

/// The jobs `s` after dropping finished jobs beyond the first `MAX_HISTORY - kept`
/// of them; running jobs and the order stay.
pub open spec fn keep_recent(s: Seq<JobView>, kept: nat) -> Seq<JobView>
    decreases s.len(),
{
    if s.len() == 0 {
        s
    } else if !is_done(s[0]) {
        seq![s[0]] + keep_recent(s.drop_first(), kept)
    } else if kept < MAX_HISTORY {
        seq![s[0]] + keep_recent(s.drop_first(), kept + 1)
    } else {
        keep_recent(s.drop_first(), kept)
    }
}

/// The jobs of `s` that are still running, in order.
pub open spec fn running_jobs(s: Seq<JobView>) -> Seq<JobView>
    decreases s.len(),
{
    if s.len() == 0 {
        s
    } else if !is_done(s[0]) {
        seq![s[0]] + running_jobs(s.drop_first())
    } else {
        running_jobs(s.drop_first())
    }
}

/// The jobs of `s` that have finished, in order.
pub open spec fn done_jobs(s: Seq<JobView>) -> Seq<JobView>
    decreases s.len(),
{
    if s.len() == 0 {
        s
    } else if is_done(s[0]) {
        seq![s[0]] + done_jobs(s.drop_first())
    } else {
        done_jobs(s.drop_first())
    }
}

/// The first position at or after `k` of a job with the id `id`.
pub open spec fn job_index(s: Seq<JobView>, id: u128, k: int) -> Option<int>
    decreases s.len() - k,
{
    if k < 0 || k >= s.len() {
        None
    } else if s[k].id == id {
        Some(k)
    } else {
        job_index(s, id, k + 1)
    }
}

proof fn lemma_job_index_in_range(s: Seq<JobView>, id: u128, k: int)
    ensures
        job_index(s, id, k) matches Some(i) ==> k <= i < s.len() && s[i].id == id,
    decreases s.len() - k,
{
    if 0 <= k < s.len() && s[k].id != id {
        lemma_job_index_in_range(s, id, k + 1);
    }
}

/// The jobs `s` with the job at `i` replaced by `j`, as views.
proof fn lemma_views_update(s: Seq<Job>, i: int, j: Job)
    requires
        0 <= i < s.len(),
    ensures
        s.update(i, j).map_values(|x: Job| x@) == s.map_values(|x: Job| x@).update(i, j@),
{
    assert(s.update(i, j).map_values(|x: Job| x@) =~= s.map_values(|x: Job| x@).update(i, j@));
}

/// The running and recently finished jobs, newest first.
pub struct JobRegistry {
    pub jobs: std::collections::VecDeque<Job>,
}

impl View for JobRegistry {
    type V = Seq<JobView>;

    open spec fn view(&self) -> Seq<JobView> {
        self.jobs@.map_values(|j: Job| j@)
    }
}

proof fn lemma_keep_recent_step_keep(v: Seq<JobView>, idx: int, kept: nat, kept2: nat)
    requires
        0 <= idx < v.len(),
        (!is_done(v[idx]) && kept2 == kept) || (is_done(v[idx]) && kept < MAX_HISTORY && kept2
            == kept + 1),
    ensures
        v.subrange(0, idx) + keep_recent(v.subrange(idx, v.len() as int), kept) == v.subrange(
            0,
            idx + 1,
        ) + keep_recent(v.subrange(idx + 1, v.len() as int), kept2),
{
    let rest = v.subrange(idx, v.len() as int);
    assert(rest.drop_first() =~= v.subrange(idx + 1, v.len() as int));
    assert(v.subrange(0, idx + 1) =~= v.subrange(0, idx) + seq![v[idx]]);
    assert(v.subrange(0, idx) + (seq![v[idx]] + keep_recent(rest.drop_first(), kept2)) =~= (
    v.subrange(0, idx) + seq![v[idx]]) + keep_recent(rest.drop_first(), kept2));
}

proof fn lemma_keep_recent_step_drop(v: Seq<JobView>, idx: int, kept: nat)
    requires
        0 <= idx < v.len(),
        is_done(v[idx]),
        kept >= MAX_HISTORY,
    ensures
        v.subrange(0, idx) + keep_recent(v.subrange(idx, v.len() as int), kept) == v.remove(
            idx,
        ).subrange(0, idx) + keep_recent(v.remove(idx).subrange(idx, v.len() - 1), kept),
{
    let rest = v.subrange(idx, v.len() as int);
    assert(rest.drop_first() =~= v.remove(idx).subrange(idx, v.len() - 1));
    assert(v.subrange(0, idx) =~= v.remove(idx).subrange(0, idx));
}

/// Drops finished jobs beyond the newest `MAX_HISTORY`; running jobs all stay.
fn trim(jobs: &mut std::collections::VecDeque<Job>)
    ensures
        final(jobs)@.map_values(|j: Job| j@) == keep_recent(old(jobs)@.map_values(|j: Job| j@), 0),
{
    let ghost orig = jobs@.map_values(|j: Job| j@);
    let mut finished_kept: usize = 0;
    let mut idx: usize = 0;
    proof {
        let v = jobs@.map_values(|j: Job| j@);
        assert(v.subrange(0, 0) + keep_recent(v.subrange(0, v.len() as int), 0) =~= keep_recent(v, 0)) by {
            assert(v.subrange(0, v.len() as int) =~= v);
        }
    }
    while idx < jobs.len()
        invariant
            idx <= jobs@.len(),
            finished_kept <= MAX_HISTORY,
            ({
                let v = jobs@.map_values(|j: Job| j@);
                v.subrange(0, idx as int) + keep_recent(v.subrange(idx as int, v.len() as int), finished_kept as nat) == keep_recent(orig, 0)
            }),
        decreases jobs@.len() - idx,
    {
        let ghost v = jobs@.map_values(|j: Job| j@);
        let state = jobs[idx].state;
        match state {
            JobState::Running => {
                proof {
                    lemma_keep_recent_step_keep(v, idx as int, finished_kept as nat, finished_kept as nat);
                }
                idx = idx + 1;
            },
            JobState::Succeeded | JobState::Failed => {
                if finished_kept < MAX_HISTORY {
                    proof {
                        lemma_keep_recent_step_keep(v, idx as int, finished_kept as nat, (finished_kept + 1) as nat);
                    }
                    finished_kept = finished_kept + 1;
                    idx = idx + 1;
                } else {
                    proof {
                        lemma_keep_recent_step_drop(v, idx as int, finished_kept as nat);
                    }
                    jobs.remove(idx);
                    proof {
                        assert(jobs@.map_values(|j: Job| j@) =~= v.remove(idx as int));
                    }
                }
            },
        }
    }
    proof {
        let v = jobs@.map_values(|j: Job| j@);
        assert(v.subrange(idx as int, v.len() as int) =~= Seq::<JobView>::empty());
        assert(v.subrange(0, idx as int) =~= v);
        assert(v + Seq::<JobView>::empty() =~= v);
    }
}


/// Applies `u` to the progress `p`.
fn apply_update(p: &mut JobProgress, u: ProgressUpdate)
    ensures
        final(p)@ == progressed(old(p)@, u@),
        !(u is Done) ==> final(p)@.collections_done == old(p)@.collections_done,
        u is Done ==> final(p)@.collections_done as int == if old(p)@.collections_done < u32::MAX {
            old(p)@.collections_done + 1
        } else {
            old(p)@.collections_done as int
        },
{
    match u {
        ProgressUpdate::Writing { collection, log } => {
            p.current_collection = Some(collection);
            p.last_log = Some(log);
        },
        ProgressUpdate::Done { log } => {
            if p.collections_done < u32::MAX {
                p.collections_done = p.collections_done + 1;
            }
            p.current_collection = None;
            p.last_log = Some(log);
        },
        ProgressUpdate::Log { log } => {
            p.last_log = Some(log);
        },
    }
}

impl JobRegistry {
    /// No jobs.
    pub fn new() -> (h: Self)
        ensures
            h@ == Seq::<JobView>::empty(),
    {
        let h = JobRegistry { jobs: std::collections::VecDeque::new() };
        assert(h@ =~= Seq::<JobView>::empty());
        h
    }

    /// All jobs, newest first.
    pub fn list(&self) -> (r: Vec<Job>)
        ensures
            r@.map_values(|j: Job| j@) == self@,
    {
        let mut r: Vec<Job> = Vec::new();
        let mut i: usize = 0;
        while i < self.jobs.len()
            invariant
                i <= self.jobs@.len(),
                r@.map_values(|j: Job| j@) == self@.take(i as int),
            decreases self.jobs@.len() - i,
        {
            let j = self.jobs[i].clone();
            assert(j@ == self@[i as int]);
            let ghost prev = r@;
            r.push(j);
            assert(r@.map_values(|j: Job| j@) =~= prev.map_values(|j: Job| j@).push(j@));
            i = i + 1;
            assert(r@.map_values(|j: Job| j@) =~= self@.take(i as int));
        }
        assert(self@.take(i as int) =~= self@);
        r
    }

    /// The position of the first job with the id `id`.
    fn position(&self, id: u128) -> (r: Option<usize>)
        ensures
            r matches Some(i) ==> job_index(self@, id, 0) == Some(i as int),
            r is None ==> job_index(self@, id, 0) is None,
    {
        let mut k: usize = 0;
        while k < self.jobs.len()
            invariant
                k <= self.jobs@.len(),
                job_index(self@, id, 0) == job_index(self@, id, k as int),
            decreases self.jobs@.len() - k,
        {
            if self.jobs[k].id == id {
                return Some(k);
            }
            k = k + 1;
        }
        None
    }

    /// Records a new running job, newest first, and drops finished jobs beyond the
    /// newest `MAX_HISTORY`. Returns the new job; its id is fresh and random and its
    /// start time is the current time.
    pub fn start(
        &mut self,
        kind: JobKind,
        connection_id: Option<u128>,
        connection_label: String,
        database: String,
        source: JobSource,
    ) -> (job: Job)
        ensures
            job@.kind == kind,
            job@.connection_id == connection_id,
            job@.connection_label == connection_label@,
            job@.database == database@,
            job@.source == source,
            job@.state == JobState::Running,
            is_clock_time(job@.started_at),
            job@.finished_at is None,
            job@.message is None,
            job@.progress == (JobProgressView { current_collection: None, collections_done: 0, last_log: None }),
            final(self)@ == keep_recent(seq![job@] + old(self)@, 0),
    {
        let job = Job {
            id: new_id(),
            kind,
            connection_id,
            connection_label,
            database,
            source,
            state: JobState::Running,
            started_at: utc_now(),
            finished_at: None,
            message: None,
            progress: JobProgress::new(),
        };
        let snapshot = job.clone();
        let ghost before = self@;
        self.jobs.push_front(job);
        assert(self.jobs@.map_values(|j: Job| j@) =~= seq![snapshot@] + before);
        trim(&mut self.jobs);
        snapshot
    }

    /// Applies `update` to the first job with the id `id` if it is still running, and
    /// returns that job as it now is; otherwise changes nothing and returns `None`.
    pub fn update_progress(&mut self, id: u128, update: ProgressUpdate) -> (r: Option<Job>)
        ensures
            match job_index(old(self)@, id, 0) {
                Some(i) => if old(self)@[i].state == JobState::Running {
                    &&& final(self)@ == old(self)@.update(
                        i,
                        JobView { progress: progressed(old(self)@[i].progress, update@), ..old(self)@[i] },
                    )
                    &&& r matches Some(j) && j@ == final(self)@[i]
                } else {
                    final(self)@ == old(self)@ && r is None
                },
                None => final(self)@ == old(self)@ && r is None,
            },
    {
        proof {
            lemma_job_index_in_range(self@, id, 0);
        }
        match self.position(id) {
            Some(i) => {
                if self.jobs[i].state == JobState::Running {
                    let ghost before = self.jobs@;
                    let mut job = self.jobs.remove(i).unwrap();
                    apply_update(&mut job.progress, update);
                    let snapshot = job.clone();
                    self.jobs.insert(i, job);
                    proof {
                        assert(self.jobs@ =~= before.update(i as int, job));
                        lemma_views_update(before, i as int, job);
                    }
                    Some(snapshot)
                } else {
                    None
                }
            },
            None => None,
        }
    }

    /// Marks the first job with the id `id` as finished now, succeeded or failed with
    /// the message that `outcome` holds, and returns that job as it now is; changes
    /// nothing and returns `None` if there is no such job.
    pub fn finish(&mut self, id: u128, outcome: Result<String, String>) -> (r: Option<Job>)
        ensures
            match job_index(old(self)@, id, 0) {
                Some(i) => {
                    &&& r matches Some(j)
                    &&& j@.finished_at matches Some(at)
                    &&& is_clock_time(at)
                    &&& final(self)@ == old(self)@.update(i, finished(old(self)@[i], outcome_view(outcome), at))
                    &&& j@ == final(self)@[i]
                },
                None => final(self)@ == old(self)@ && r is None,
            },
    {
        proof {
            lemma_job_index_in_range(self@, id, 0);
        }
        match self.position(id) {
            Some(i) => {
                let ghost before = self.jobs@;
                let mut job = self.jobs.remove(i).unwrap();
                job.finished_at = Some(utc_now());
                match outcome {
                    Ok(m) => {
                        job.state = JobState::Succeeded;
                        job.message = Some(m);
                    },
                    Err(m) => {
                        job.state = JobState::Failed;
                        job.message = Some(m);
                    },
                }
                let snapshot = job.clone();
                self.jobs.insert(i, job);
                proof {
                    assert(self.jobs@ =~= before.update(i as int, job));
                    lemma_views_update(before, i as int, job);
                }
                Some(snapshot)
            },
            None => None,
        }
    }
}

/// Trimming never drops a running job: the running jobs, in order, are the same
/// before and after.
pub proof fn lemma_trim_keeps_running(s: Seq<JobView>, kept: nat)
    ensures
        running_jobs(keep_recent(s, kept)) == running_jobs(s),
    decreases s.len(),
{
    if s.len() > 0 {
        let rest = s.drop_first();
        if !is_done(s[0]) {
            lemma_trim_keeps_running(rest, kept);
            assert((seq![s[0]] + keep_recent(rest, kept)).drop_first() =~= keep_recent(rest, kept));
        } else if kept < MAX_HISTORY {
            lemma_trim_keeps_running(rest, kept + 1);
            assert((seq![s[0]] + keep_recent(rest, kept + 1)).drop_first() =~= keep_recent(
                rest,
                kept + 1,
            ));
        } else {
            lemma_trim_keeps_running(rest, kept);
        }
    }
}

/// Trimming keeps exactly the newest finished jobs: the first `MAX_HISTORY - kept`
/// of them (all of them if there are fewer), in order.
pub proof fn lemma_trim_keeps_newest_finished(s: Seq<JobView>, kept: nat)
    requires
        kept <= MAX_HISTORY,
    ensures
        done_jobs(keep_recent(s, kept)) == done_jobs(s).take(
            if done_jobs(s).len() < MAX_HISTORY - kept { done_jobs(s).len() as int } else { MAX_HISTORY - kept },
        ),
    decreases s.len(),
{
    if s.len() == 0 {
        assert(done_jobs(s).take(0) =~= done_jobs(s));
    } else {
        let rest = s.drop_first();
        if !is_done(s[0]) {
            lemma_trim_keeps_newest_finished(rest, kept);
            assert((seq![s[0]] + keep_recent(rest, kept)).drop_first() =~= keep_recent(rest, kept));
        } else if kept < MAX_HISTORY {
            lemma_trim_keeps_newest_finished(rest, kept + 1);
            let kr = keep_recent(rest, kept + 1);
            assert((seq![s[0]] + kr).drop_first() =~= kr);
            assert((seq![s[0]] + kr)[0] == s[0]);
            let d = done_jobs(rest);
            let n = if d.len() < MAX_HISTORY - (kept + 1) { d.len() as int } else { MAX_HISTORY - (kept + 1) };
            assert(done_jobs(s) == seq![s[0]] + d);
            assert((seq![s[0]] + d).take(n + 1) =~= seq![s[0]] + d.take(n));
        } else {
            lemma_trim_keeps_newest_finished(rest, kept);
            assert(done_jobs(s).take(0) =~= Seq::<JobView>::empty());
            assert(done_jobs(rest).take(0) =~= Seq::<JobView>::empty());
        }
    }
}

/// After trimming, the history holds at most `MAX_HISTORY` finished jobs.
pub proof fn lemma_history_bounded(s: Seq<JobView>)
    ensures
        done_jobs(keep_recent(s, 0)).len() <= MAX_HISTORY,
{
    lemma_trim_keeps_newest_finished(s, 0);
}

/// A newly started job heads the list after trimming.
pub proof fn lemma_started_job_first(s: Seq<JobView>, job: JobView)
    requires
        job.state == JobState::Running,
    ensures
        keep_recent(seq![job] + s, 0).len() > 0,
        keep_recent(seq![job] + s, 0)[0] == job,
{
    assert((seq![job] + s)[0] == job);
}

} // verus!
