//! Pipeline jobs: their registry, progress counting, and the sequenced
//! events that report them.

use vstd::prelude::*;

verus! {

/// Where a job stands.
#[derive(Clone, Copy, Debug, PartialEq, Eq, Structural)]
pub enum JobStatus {
    Running,
    Completed,
    Cancelled,
    Failed,
}

/// One pipeline job, as `/operations` and `/events` report it.
#[derive(Debug)]
pub struct JobSummary<P> {
    pub id: String,
    pub kind: String,
    pub status: JobStatus,
    pub error: Option<String>,
    pub stage: Option<String>,
    pub page: Option<P>,
    pub model: Option<String>,
    pub completed: Option<usize>,
    pub total: Option<usize>,
}

fn copy_text(s: &Option<String>) -> (r: Option<String>)
    ensures
        r == *s,
{
    match s {
        Some(v) => Some(v.clone()),
        None => None,
    }
}

impl<P: Copy> JobSummary<P> {
    /// A field-for-field copy.
    pub fn duplicate(&self) -> (r: JobSummary<P>)
        ensures
            r == *self,
    {
        JobSummary {
            id: self.id.clone(),
            kind: self.kind.clone(),
            status: self.status,
            error: copy_text(&self.error),
            stage: copy_text(&self.stage),
            page: self.page,
            model: copy_text(&self.model),
            completed: self.completed,
            total: self.total,
        }
    }
}

/// `j` is a job just started under `id` and `kind`: running, with nothing
/// else known yet.
pub open spec fn is_new_job<P>(j: JobSummary<P>, id: Seq<char>, kind: Seq<char>) -> bool {
    &&& j.id@ == id
    &&& j.kind@ == kind
    &&& j.status == JobStatus::Running
    &&& j.error is None
    &&& j.stage is None
    &&& j.page is None
    &&& j.model is None
    &&& j.completed is None
    &&& j.total is None
}

/// What one progress report tells of a job.
pub struct ProgressUpdate<P> {
    pub completed: usize,
    pub total: usize,
    pub page: Option<P>,
    pub stage: Option<String>,
    pub model: Option<String>,
}

/// `j` with the counts, page, stage and model of `u`.
pub open spec fn with_progress<P>(j: JobSummary<P>, u: ProgressUpdate<P>) -> JobSummary<P> {
    JobSummary {
        completed: Some(u.completed),
        total: Some(u.total),
        page: u.page,
        stage: u.stage,
        model: u.model,
        ..j
    }
}

/// `j` with its final status and error.
pub open spec fn with_outcome<P>(j: JobSummary<P>, status: JobStatus, error: Option<String>) -> JobSummary<P> {
    JobSummary { status, error, ..j }
}

/// The registry after a progress report for job `id`: the job, if still
/// registered, takes the report's counts, page, stage and model.
pub open spec fn after_progress<P>(
    jobs: Map<Seq<char>, JobSummary<P>>,
    id: Seq<char>,
    u: ProgressUpdate<P>,
) -> Map<Seq<char>, JobSummary<P>> {
    if jobs.contains_key(id) {
        jobs.insert(id, with_progress(jobs[id], u))
    } else {
        jobs
    }
}

/// The registry after job `id` ended: the job, if still registered, takes
/// its final status and error.
pub open spec fn after_finish<P>(
    jobs: Map<Seq<char>, JobSummary<P>>,
    id: Seq<char>,
    status: JobStatus,
    error: Option<String>,
) -> Map<Seq<char>, JobSummary<P>> {
    if jobs.contains_key(id) {
        jobs.insert(id, with_outcome(jobs[id], status, error))
    } else {
        jobs
    }
}

/// No two jobs share an id.
pub open spec fn unique_ids<P>(s: Seq<JobSummary<P>>) -> bool {
    forall|i: int, j: int| 0 <= i < j < s.len() ==> (#[trigger] s[i]).id@ != (#[trigger] s[j]).id@
}

/// The jobs of `s` keyed by id.
pub open spec fn jobs_map<P>(s: Seq<JobSummary<P>>) -> Map<Seq<char>, JobSummary<P>>
    decreases s.len(),
{
    if s.len() == 0 {
        Map::empty()
    } else {
        jobs_map(s.drop_last()).insert(s.last().id@, s.last())
    }
}

/// With distinct ids, the map holds exactly the ids of `s`, each bound to
/// its job.
pub proof fn lemma_jobs_map<P>(s: Seq<JobSummary<P>>)
    requires
        unique_ids(s),
    ensures
        forall|k: Seq<char>|
            #[trigger] jobs_map(s).contains_key(k) <==> exists|i: int|
                0 <= i < s.len() && (#[trigger] s[i]).id@ == k,
        forall|i: int| 0 <= i < s.len() ==> jobs_map(s)[(#[trigger] s[i]).id@] == s[i],
    decreases s.len(),
{
    if s.len() > 0 {
        let r = s.drop_last();
        assert(unique_ids(r)) by {
            assert forall|i: int, j: int| 0 <= i < j < r.len() implies (#[trigger] r[i]).id@
                != (#[trigger] r[j]).id@ by {
                assert(r[i] == s[i] && r[j] == s[j]);
            }
        }
        lemma_jobs_map(r);
        assert forall|k: Seq<char>| #[trigger] jobs_map(s).contains_key(k) implies exists|i: int|
            0 <= i < s.len() && (#[trigger] s[i]).id@ == k by {
            if k == s.last().id@ {
                assert(s[s.len() - 1].id@ == k);
            } else {
                assert(jobs_map(r).contains_key(k));
                let i = choose|i: int| 0 <= i < r.len() && (#[trigger] r[i]).id@ == k;
                assert(s[i] == r[i]);
            }
        }
        assert forall|i: int| 0 <= i < s.len() implies jobs_map(s)[(#[trigger] s[i]).id@]
            == s[i] by {
            if i < s.len() - 1 {
                assert(s[i] == r[i]);
                assert(s[i].id@ != s[s.len() - 1].id@);
            }
        }
        assert forall|k: Seq<char>|
            (exists|i: int| 0 <= i < s.len() && (#[trigger] s[i]).id@ == k) implies #[trigger] jobs_map(
            s,
        ).contains_key(k) by {
            let i = choose|i: int| 0 <= i < s.len() && (#[trigger] s[i]).id@ == k;
            if i < s.len() - 1 {
                assert(s[i] == r[i]);
            }
        }
    }
}

/// The jobs known to the server, keyed by id.
pub struct JobRegistry<P> {
    jobs: Vec<JobSummary<P>>,
}

impl<P> View for JobRegistry<P> {
    type V = Map<Seq<char>, JobSummary<P>>;

    closed spec fn view(&self) -> Map<Seq<char>, JobSummary<P>> {
        jobs_map(self.jobs@)
    }
}

impl<P> JobRegistry<P> {
    /// The registry keeps at most one job per id.
    #[verifier::type_invariant]
    spec fn one_job_per_id(&self) -> bool {
        unique_ids(self.jobs@)
    }
}

impl<P: Copy> JobRegistry<P> {
    pub fn new() -> (r: JobRegistry<P>)
        ensures
            r@ == Map::<Seq<char>, JobSummary<P>>::empty(),
    {
        JobRegistry { jobs: Vec::new() }
    }

    fn find(&self, id: &String) -> (r: Option<usize>)
        ensures
            match r {
                Some(i) => i < self.jobs@.len() && self.jobs@[i as int].id@ == id@,
                None => !self@.contains_key(id@),
            },
    {
        proof {
            use_type_invariant(self);
            lemma_jobs_map(self.jobs@);
        }
        let n = self.jobs.len();
        let mut i: usize = 0;
        while i < n
            invariant
                n == self.jobs@.len(),
                i <= n,
                forall|j: int| 0 <= j < i ==> (#[trigger] self.jobs@[j]).id@ != id@,
            decreases n - i,
        {
            if self.jobs[i].id == *id {
                return Some(i);
            }
            i = i + 1;
        }
        None
    }

    proof fn lemma_replace(s: Seq<JobSummary<P>>, i: int, x: JobSummary<P>)
        requires
            unique_ids(s),
            0 <= i < s.len(),
            x.id@ == s[i].id@,
        ensures
            unique_ids(s.update(i, x)),
            jobs_map(s.update(i, x)) =~= jobs_map(s).insert(x.id@, x),
    {
        let t = s.update(i, x);
        assert(unique_ids(t)) by {
            assert forall|a: int, b: int| 0 <= a < b < t.len() implies (#[trigger] t[a]).id@
                != (#[trigger] t[b]).id@ by {
                assert(t[a].id@ == s[a].id@ && t[b].id@ == s[b].id@);
            }
        }
        lemma_jobs_map(s);
        lemma_jobs_map(t);
        assert forall|k: Seq<char>| jobs_map(t).contains_key(k) <==> jobs_map(s).insert(
            x.id@,
            x,
        ).contains_key(k) by {
            if jobs_map(t).contains_key(k) {
                let a = choose|a: int| 0 <= a < t.len() && (#[trigger] t[a]).id@ == k;
                assert(s[a].id@ == k);
            }
            if jobs_map(s).contains_key(k) {
                let a = choose|a: int| 0 <= a < s.len() && (#[trigger] s[a]).id@ == k;
                assert(t[a].id@ == k);
            }
            if k == x.id@ {
                assert(t[i].id@ == k);
            }
        }
        assert forall|k: Seq<char>| #[trigger] jobs_map(t).contains_key(k) implies jobs_map(t)[k]
            == jobs_map(s).insert(x.id@, x)[k] by {
            let a = choose|a: int| 0 <= a < t.len() && (#[trigger] t[a]).id@ == k;
            if a != i {
                assert(t[a] == s[a]);
            }
        }
    }

    /// Puts `job` at position `i`, where a job with the same id stands.
    fn replace_job(&mut self, i: usize, job: JobSummary<P>)
        requires
            i < old(self).jobs@.len(),
            job.id@ == old(self).jobs@[i as int].id@,
        ensures
            final(self).jobs@ == old(self).jobs@.update(i as int, job),
    {
        proof {
            use_type_invariant(&*self);
            Self::lemma_replace(self.jobs@, i as int, job);
        }
        let mut jobs: Vec<JobSummary<P>> = Vec::new();
        std::mem::swap(&mut jobs, &mut self.jobs);
        jobs.set(i, job);
        self.jobs = jobs;
    }

    /// Registers a job just started under `id`, replacing any job with that id.
    pub fn start(&mut self, id: String, kind: String)
        ensures
            final(self)@ == old(self)@.insert(id@, final(self)@[id@]),
            is_new_job(final(self)@[id@], id@, kind@),
    {
        proof {
            use_type_invariant(&*self);
        }
        let found = self.find(&id);
        let ghost key = id@;
        let mut jobs: Vec<JobSummary<P>> = Vec::new();
        std::mem::swap(&mut jobs, &mut self.jobs);
        let job = JobSummary {
            id,
            kind,
            status: JobStatus::Running,
            error: None,
            stage: None,
            page: None,
            model: None,
            completed: None,
            total: None,
        };
        let ghost g = job;
        match found {
            Some(i) => {
                proof {
                    Self::lemma_replace(jobs@, i as int, g);
                }
                jobs.set(i, job);
            },
            None => {
                proof {
                    lemma_jobs_map(jobs@);
                    let t = jobs@.push(g);
                    assert(t.drop_last() =~= jobs@);
                    assert forall|a: int, b: int| 0 <= a < b < t.len() implies (#[trigger] t[a]).id@
                        != (#[trigger] t[b]).id@ by {
                        if b == t.len() - 1 {
                            assert(t[a] == jobs@[a]);
                        } else {
                            assert(t[a] == jobs@[a] && t[b] == jobs@[b]);
                        }
                    }
                }
                jobs.push(job);
            },
        }
        self.jobs = jobs;
        assert(self@[key] == g);
    }

    /// Applies a progress report to job `id`, if it is still registered.
    pub fn apply_progress(&mut self, id: &String, update: &ProgressUpdate<P>)
        ensures
            final(self)@.dom() == old(self)@.dom(),
            old(self)@.contains_key(id@) ==> {
                let (before, after) = (old(self)@[id@], final(self)@[id@]);
                &&& after.completed == Some(update.completed)
                &&& after.total == Some(update.total)
                &&& after.page == update.page
                &&& after.stage == update.stage
                &&& after.model == update.model
                &&& after.id == before.id && after.kind == before.kind
                &&& after.status == before.status && after.error == before.error
            },
            forall|k: Seq<char>| k != id@ && #[trigger] old(self)@.contains_key(k) ==> final(self)@[k]
                == old(self)@[k],
            final(self)@ == after_progress(old(self)@, id@, *update),
    {
        proof {
            use_type_invariant(&*self);
            lemma_jobs_map(self.jobs@);
        }
        match self.find(id) {
            Some(i) => {
                let mut job = self.jobs[i].duplicate();
                job.completed = Some(update.completed);
                job.total = Some(update.total);
                job.page = update.page;
                job.stage = copy_text(&update.stage);
                job.model = copy_text(&update.model);
                proof {
                    assert(job == with_progress(self.jobs@[i as int], *update));
                    Self::lemma_replace(self.jobs@, i as int, job);
                }
                self.replace_job(i, job);
            },
            None => {},
        }
    }

    /// Records the final status and error of job `id`, if it is still
    /// registered.
    pub fn finish(&mut self, id: &String, status: JobStatus, error: Option<String>)
        ensures
            final(self)@ == after_finish(old(self)@, id@, status, error),
    {
        proof {
            use_type_invariant(&*self);
            lemma_jobs_map(self.jobs@);
        }
        match self.find(id) {
            Some(i) => {
                let mut job = self.jobs[i].duplicate();
                job.status = status;
                job.error = error;
                proof {
                    Self::lemma_replace(self.jobs@, i as int, job);
                }
                self.replace_job(i, job);
            },
            None => {},
        }
    }

    /// Forgets job `id`.
    pub fn remove(&mut self, id: &String)
        ensures
            final(self)@ == old(self)@.remove(id@),
    {
        proof {
            use_type_invariant(&*self);
            lemma_jobs_map(self.jobs@);
        }
        match self.find(id) {
            Some(i) => {
                let ghost s = self.jobs@;
                let mut jobs: Vec<JobSummary<P>> = Vec::new();
                std::mem::swap(&mut jobs, &mut self.jobs);
                jobs.remove(i);
                proof {
                    let t = jobs@;
                    s.remove_ensures(i as int);
                    assert(unique_ids(t)) by {
                        assert forall|a: int, b: int| 0 <= a < b < t.len() implies (#[trigger] t[
                            a
                        ]).id@ != (#[trigger] t[b]).id@ by {
                            let a2 = if a < i { a } else { a + 1 };
                            let b2 = if b < i { b } else { b + 1 };
                            assert(t[a] == s[a2] && t[b] == s[b2]);
                        }
                    }
                    lemma_jobs_map(t);
                    assert forall|k: Seq<char>| jobs_map(t).contains_key(k) <==> jobs_map(
                        s,
                    ).remove(id@).contains_key(k) by {
                        if jobs_map(t).contains_key(k) {
                            let a = choose|a: int| 0 <= a < t.len() && (#[trigger] t[a]).id@ == k;
                            let a2 = if a < i { a } else { a + 1 };
                            assert(t[a] == s[a2]);
                        }
                        if jobs_map(s).contains_key(k) && k != id@ {
                            let a = choose|a: int| 0 <= a < s.len() && (#[trigger] s[a]).id@ == k;
                            if a < i {
                                assert(t[a] == s[a]);
                            } else {
                                assert(a != i);
                                assert(t[a - 1] == s[a]);
                            }
                        }
                    }
                    assert forall|k: Seq<char>| #[trigger] jobs_map(t).contains_key(k) implies jobs_map(
                        t,
                    )[k] == jobs_map(s)[k] by {
                        let a = choose|a: int| 0 <= a < t.len() && (#[trigger] t[a]).id@ == k;
                        let a2 = if a < i { a } else { a + 1 };
                        assert(t[a] == s[a2]);
                    }
                    assert(jobs_map(t) =~= jobs_map(s).remove(id@));
                }
                self.jobs = jobs;
            },
            None => {
                assert(self@ =~= old(self)@.remove(id@));
            },
        }
    }

    /// Every registered job, each once, in no promised order.
    pub fn snapshot(&self) -> (r: Vec<JobSummary<P>>)
        ensures
            unique_ids(r@),
            forall|i: int|
                0 <= i < r@.len() ==> self@.contains_key((#[trigger] r@[i]).id@) && self@[r@[i].id@]
                    == r@[i],
            forall|k: Seq<char>|
                #[trigger] self@.contains_key(k) ==> exists|i: int|
                    0 <= i < r@.len() && (#[trigger] r@[i]).id@ == k,
    {
        proof {
            use_type_invariant(self);
            lemma_jobs_map(self.jobs@);
        }
        let mut r: Vec<JobSummary<P>> = Vec::new();
        let n = self.jobs.len();
        let mut i: usize = 0;
        while i < n
            invariant
                n == self.jobs@.len(),
                i <= n,
                r@ == self.jobs@.take(i as int),
            decreases n - i,
        {
            r.push(self.jobs[i].duplicate());
            assert(self.jobs@.take(i + 1) =~= self.jobs@.take(i as int).push(self.jobs@[i as int]));
            i = i + 1;
        }
        assert(self.jobs@.take(n as int) =~= self.jobs@);
        r
    }
}

/// One report from a running pipeline (`P` names pages; stages by name).
pub enum ProgressEvent<P> {
    /// The run covers `pages` pages through `stages` stages.
    Started { pages: usize, stages: usize },
    /// A stage's model is being loaded for a page.
    Loading { page: P, stage: String, model: String },
    /// A stage finished on a page.
    Finished { page: P, stage: String, model: String },
    /// A stage was skipped on a page.
    Skipped { page: P, stage: String },
    /// A stage is running; this reports nothing new.
    Running,
}

/// `a * b`, or `usize::MAX` where that overflows (`usize::saturating_mul`).
pub open spec fn saturating_product(a: usize, b: usize) -> usize {
    if a * b > usize::MAX {
        usize::MAX
    } else {
        (a * b) as usize
    }
}

/// `min(completed.saturating_add(1), total)`: one more step done, never
/// past the total.
pub open spec fn one_more(completed: usize, total: usize) -> usize {
    let next = if completed + 1 > usize::MAX {
        usize::MAX
    } else {
        (completed + 1) as usize
    };
    if next < total {
        next
    } else {
        total
    }
}

/// How a report moves the (completed, total) count, and the update it
/// yields for the job, if any.
pub open spec fn progress_step<P>(c: (usize, usize), e: ProgressEvent<P>) -> (
    (usize, usize),
    Option<ProgressUpdate<P>>,
) {
    match e {
        ProgressEvent::Started { pages, stages } => {
            let total = saturating_product(pages, stages);
            (
                (0, total),
                Some(
                    ProgressUpdate { completed: 0, total, page: None, stage: None, model: None },
                ),
            )
        },
        ProgressEvent::Loading { page, stage, model } => (
            c,
            Some(
                ProgressUpdate {
                    completed: c.0,
                    total: c.1,
                    page: Some(page),
                    stage: Some(stage),
                    model: Some(model),
                },
            ),
        ),
        ProgressEvent::Finished { page, stage, model } => {
            let done = one_more(c.0, c.1);
            (
                (done, c.1),
                Some(
                    ProgressUpdate {
                        completed: done,
                        total: c.1,
                        page: Some(page),
                        stage: Some(stage),
                        model: Some(model),
                    },
                ),
            )
        },
        ProgressEvent::Skipped { page, stage } => {
            let done = one_more(c.0, c.1);
            (
                (done, c.1),
                Some(
                    ProgressUpdate {
                        completed: done,
                        total: c.1,
                        page: Some(page),
                        stage: Some(stage),
                        model: None,
                    },
                ),
            )
        },
        ProgressEvent::Running => (c, None),
    }
}

/// Steps completed out of the steps a run covers.
pub struct ProgressCounter {
    completed: usize,
    total: usize,
}

impl View for ProgressCounter {
    type V = (usize, usize);

    closed spec fn view(&self) -> (usize, usize) {
        (self.completed, self.total)
    }
}

impl ProgressCounter {
    /// The count never passes the total.
    #[verifier::type_invariant]
    spec fn within_total(&self) -> bool {
        self.completed <= self.total
    }

    /// Nothing counted yet.
    pub fn new() -> (r: ProgressCounter)
        ensures
            r@ == (0usize, 0usize),
    {
        ProgressCounter { completed: 0, total: 0 }
    }

    /// Counts one report: the count never passes the total.
    pub fn observe<P>(&mut self, event: ProgressEvent<P>) -> (r: Option<ProgressUpdate<P>>)
        ensures
            final(self)@ == progress_step(old(self)@, event).0,
            r == progress_step(old(self)@, event).1,
            final(self)@.0 <= final(self)@.1,
            event matches ProgressEvent::Started { pages, stages } ==> final(self)@.0 == 0
                && final(self)@.1 as int == (if pages * stages <= usize::MAX {
                pages * stages
            } else {
                usize::MAX as int
            }) && (r matches Some(u) && u.completed == 0 && u.total == final(self)@.1),
    {
        proof {
            use_type_invariant(&*self);
        }
        match event {
            ProgressEvent::Started { pages, stages } => {
                let total = match pages.checked_mul(stages) {
                    Some(v) => v,
                    None => usize::MAX,
                };
                self.completed = 0;
                self.total = total;
                Some(ProgressUpdate { completed: 0, total, page: None, stage: None, model: None })
            },
            ProgressEvent::Loading { page, stage, model } => Some(
                ProgressUpdate {
                    completed: self.completed,
                    total: self.total,
                    page: Some(page),
                    stage: Some(stage),
                    model: Some(model),
                },
            ),
            ProgressEvent::Finished { page, stage, model } => {
                let next = self.completed.saturating_add(1);
                self.completed = if next < self.total {
                    next
                } else {
                    self.total
                };
                Some(
                    ProgressUpdate {
                        completed: self.completed,
                        total: self.total,
                        page: Some(page),
                        stage: Some(stage),
                        model: Some(model),
                    },
                )
            },
            ProgressEvent::Skipped { page, stage } => {
                let next = self.completed.saturating_add(1);
                self.completed = if next < self.total {
                    next
                } else {
                    self.total
                };
                Some(
                    ProgressUpdate {
                        completed: self.completed,
                        total: self.total,
                        page: Some(page),
                        stage: Some(stage),
                        model: None,
                    },
                )
            },
            ProgressEvent::Running => None,
        }
    }
}

/// A job's progress as `/events` streams it. The percentage that the wire
/// format adds is derived from `completed` and `total` where it is encoded.
pub struct JobProgress<P> {
    pub id: String,
    pub status: JobStatus,
    pub stage: Option<String>,
    pub current_page: Option<P>,
    pub completed: Option<usize>,
    pub total: Option<usize>,
}

/// A job that ended.
pub struct JobFinished {
    pub id: String,
    pub status: JobStatus,
    pub error: Option<String>,
}

/// A warning raised while a job runs.
pub struct JobWarning {
    pub id: String,
    pub message: String,
}

/// The events streamed over `/events`.
pub enum AppEvent<P> {
    Snapshot { jobs: Vec<JobSummary<P>> },
    JobStarted { id: String, kind: String },
    JobProgress(JobProgress<P>),
    JobFinished(JobFinished),
    JobWarning(JobWarning),
}

/// An event with its place in the stream.
pub struct SequencedEvent<P> {
    pub seq: u64,
    pub event: AppEvent<P>,
}

/// Numbers the events it publishes 1, 2, 3, ... in publishing order, so
/// that each stream frame carries a strictly increasing id.
pub struct EventBus {
    seq: u64,
}

impl EventBus {
    /// The number of the latest published event (0 before the first).
    pub closed spec fn latest(&self) -> u64 {
        self.seq
    }

    pub fn new() -> (r: EventBus)
        ensures
            r.latest() == 0,
    {
        EventBus { seq: 0 }
    }

    /// Numbers `event` as the next one in the stream; the caller sends it.
    pub fn publish<P>(&mut self, event: AppEvent<P>) -> (r: SequencedEvent<P>)
        requires
            old(self).latest() < u64::MAX,
        ensures
            r.seq == old(self).latest() + 1,
            final(self).latest() == r.seq,
            r.event == event,
    {
        self.seq = self.seq + 1;
        SequencedEvent { seq: self.seq, event }
    }

    /// The number of the latest published event.
    pub fn latest_seq(&self) -> (r: u64)
        ensures
            r == self.latest(),
    {
        self.seq
    }
}

/// A lower-case hexadecimal digit.
pub open spec fn is_lower_hex(c: char) -> bool {
    ('0' <= c && c <= '9') || ('a' <= c && c <= 'f')
}

/// The hyphenated lower-case text of a version-4 UUID, such as
/// `67e55044-10b1-426f-9247-bb680e5fe0c8`.
pub open spec fn is_v4_uuid_text(s: Seq<char>) -> bool {
    &&& s.len() == 36
    &&& forall|i: int|
        0 <= i < 36 ==> if i == 8 || i == 13 || i == 18 || i == 23 {
            s[i] == '-'
        } else {
            is_lower_hex(#[trigger] s[i])
        }
    &&& s[14] == '4'
}

/// `uuid::Uuid::new_v4()` formatted by its `Display` impl: a random
/// version-4 UUID. Claims only the shape of the text; which identifier comes
/// out rests on chance and is not stated.
#[verifier::external_body]
fn new_operation_id() -> (r: String)
    ensures
        is_v4_uuid_text(r@),
{
    uuid::Uuid::new_v4().to_string()
}

/// How a pipeline run ended.
pub enum RunOutcome {
    /// The run was stopped through its cancellation token.
    Stopped,
    /// The run went through.
    Completed,
    /// The run failed with this message.
    Failed(String),
}

/// The status and error that an outcome leaves on its job.
pub open spec fn outcome_status(outcome: RunOutcome) -> (JobStatus, Option<String>) {
    match outcome {
        RunOutcome::Stopped => (JobStatus::Cancelled, None),
        RunOutcome::Completed => (JobStatus::Completed, None),
        RunOutcome::Failed(message) => (JobStatus::Failed, Some(message)),
    }
}

/// The job registry together with the bus that reports its changes.
pub struct JobBoard<P> {
    pub jobs: JobRegistry<P>,
    pub bus: EventBus,
}

impl<P: Copy> JobBoard<P> {
    /// Another event can still be numbered.
    pub open spec fn can_publish(&self) -> bool {
        self.bus.latest() < u64::MAX
    }

    pub fn new() -> (r: JobBoard<P>)
        ensures
            r.jobs@ == Map::<Seq<char>, JobSummary<P>>::empty(),
            r.bus.latest() == 0,
    {
        JobBoard { jobs: JobRegistry::new(), bus: EventBus::new() }
    }

    /// Registers a new pipeline job under a fresh id and announces it.
    /// Returns the id and the `jobStarted` event to send.
    pub fn begin_pipeline(&mut self) -> (r: (String, SequencedEvent<P>))
        requires
            old(self).can_publish(),
        ensures
            is_v4_uuid_text(r.0@),
            final(self).jobs@ == old(self).jobs@.insert(r.0@, final(self).jobs@[r.0@]),
            is_new_job(final(self).jobs@[r.0@], r.0@, "pipeline"@),
            r.1.seq == old(self).bus.latest() + 1,
            final(self).bus.latest() == r.1.seq,
            r.1.event matches AppEvent::JobStarted { id, kind } && id == r.0 && kind@ == "pipeline"@,
    {
        let id = new_operation_id();
        self.jobs.start(id.clone(), String::from_str("pipeline"));
        let event = self.bus.publish(
            AppEvent::JobStarted { id: id.clone(), kind: String::from_str("pipeline") },
        );
        (id, event)
    }

    /// Counts one progress report of job `id`; where it tells something new,
    /// updates the job (if still registered) and returns the `jobProgress`
    /// event to send.
    pub fn progress(
        &mut self,
        id: &String,
        counter: &mut ProgressCounter,
        event: ProgressEvent<P>,
    ) -> (r: Option<SequencedEvent<P>>)
        requires
            old(self).can_publish(),
        ensures
            final(counter)@ == progress_step(old(counter)@, event).0,
            final(counter)@.0 <= final(counter)@.1,
            match progress_step(old(counter)@, event).1 {
                None => r is None && final(self).jobs@ == old(self).jobs@ && final(self).bus.latest()
                    == old(self).bus.latest(),
                Some(u) => {
                    &&& old(self).jobs@.contains_key(id@) ==> registry_matches_event(
                        final(self).jobs@[id@],
                        r,
                    )
                    &&& final(self).jobs@ == after_progress(old(self).jobs@, id@, u)
                    &&& r matches Some(e) && e.seq == old(self).bus.latest() + 1
                        && final(self).bus.latest() == e.seq && e.event == AppEvent::JobProgress(
                        JobProgress {
                            id: *id,
                            status: JobStatus::Running,
                            stage: u.stage,
                            current_page: u.page,
                            completed: Some(u.completed),
                            total: Some(u.total),
                        },
                    )
                },
            },
    {
        match counter.observe(event) {
            None => None,
            Some(update) => {
                self.jobs.apply_progress(id, &update);
                let progress = JobProgress {
                    id: id.clone(),
                    status: JobStatus::Running,
                    stage: copy_text(&update.stage),
                    current_page: update.page,
                    completed: Some(update.completed),
                    total: Some(update.total),
                };
                Some(self.bus.publish(AppEvent::JobProgress(progress)))
            },
        }
    }

    /// Records how job `id` ended (if it is still registered) and returns
    /// the `jobFinished` event to send.
    pub fn finish(&mut self, id: &String, outcome: RunOutcome) -> (r: SequencedEvent<P>)
        requires
            old(self).can_publish(),
        ensures
            final(self).jobs@ == after_finish(
                old(self).jobs@,
                id@,
                outcome_status(outcome).0,
                outcome_status(outcome).1,
            ),
            r.seq == old(self).bus.latest() + 1,
            final(self).bus.latest() == r.seq,
            r.event == AppEvent::<P>::JobFinished(
                JobFinished {
                    id: *id,
                    status: outcome_status(outcome).0,
                    error: outcome_status(outcome).1,
                },
            ),
    {
        let (status, error) = match outcome {
            RunOutcome::Stopped => (JobStatus::Cancelled, None),
            RunOutcome::Completed => (JobStatus::Completed, None),
            RunOutcome::Failed(message) => (JobStatus::Failed, Some(message)),
        };
        self.jobs.finish(id, status, copy_text(&error));
        self.bus.publish(AppEvent::JobFinished(JobFinished { id: id.clone(), status, error }))
    }

    /// Forgets job `id` (its run, if any, is stopped by the caller).
    pub fn cancel(&mut self, id: &String)
        ensures
            final(self).jobs@ == old(self).jobs@.remove(id@),
            final(self).bus.latest() == old(self).bus.latest(),
    {
        self.jobs.remove(id);
    }

    /// The `snapshot` event that seeds a stream: every registered job.
    pub fn snapshot_event(&self) -> (r: AppEvent<P>)
        ensures
            r matches AppEvent::Snapshot { jobs } && unique_ids(jobs@) && (forall|i: int|
                0 <= i < jobs@.len() ==> self.jobs@.contains_key((#[trigger] jobs@[i]).id@)
                    && self.jobs@[jobs@[i].id@] == jobs@[i]) && (forall|k: Seq<char>|
                #[trigger] self.jobs@.contains_key(k) ==> exists|i: int|
                    0 <= i < jobs@.len() && (#[trigger] jobs@[i]).id@ == k),
    {
        AppEvent::Snapshot { jobs: self.jobs.snapshot() }
    }
}

/// A cancelled job stays forgotten: when its run ends afterwards, the
/// registry does not bring it back, and other jobs are untouched.
pub proof fn lemma_cancelled_job_stays_gone<P>(
    jobs: Map<Seq<char>, JobSummary<P>>,
    id: Seq<char>,
    status: JobStatus,
    error: Option<String>,
)
    ensures
        !after_finish(jobs.remove(id), id, status, error).contains_key(id),
        after_finish(jobs.remove(id), id, status, error) == jobs.remove(id),
{
}

/// Progress reports leave a job running and only touch that job.
pub proof fn lemma_progress_keeps_job_running<P>(
    jobs: Map<Seq<char>, JobSummary<P>>,
    id: Seq<char>,
    u: ProgressUpdate<P>,
    other: Seq<char>,
)
    requires
        jobs.contains_key(id),
        jobs[id].status == JobStatus::Running,
        other != id,
    ensures
        after_progress(jobs, id, u)[id].status == JobStatus::Running,
        after_progress(jobs, id, u)[id].id == jobs[id].id,
        after_progress(jobs, id, u).dom() == jobs.dom(),
        jobs.contains_key(other) ==> after_progress(jobs, id, u)[other] == jobs[other],
{
    assert(after_progress(jobs, id, u).dom() =~= jobs.dom());
}

/// The count after a run of reports, from `c`.
pub open spec fn count_after<P>(c: (usize, usize), events: Seq<ProgressEvent<P>>) -> (usize, usize)
    decreases events.len(),
{
    if events.len() == 0 {
        c
    } else {
        progress_step(count_after(c, events.drop_last()), events.last()).0
    }
}

/// Each report that a step finished or was skipped counts once, up to the
/// total: after `n` of them on a fresh count of `total` steps, `min(n, total)`
/// steps are done.
pub proof fn lemma_steps_count_up_to_total<P>(total: usize, events: Seq<ProgressEvent<P>>)
    requires
        forall|i: int|
            0 <= i < events.len() ==> (#[trigger] events[i] is Finished) || events[i] is Skipped,
    ensures
        count_after((0, total), events).1 == total,
        count_after((0, total), events).0 == if events.len() < total {
            events.len() as int
        } else {
            total as int
        },
    decreases events.len(),
{
    if events.len() > 0 {
        let rest = events.drop_last();
        assert forall|i: int| 0 <= i < rest.len() implies (#[trigger] rest[i] is Finished)
            || rest[i] is Skipped by {
            assert(rest[i] == events[i]);
        }
        lemma_steps_count_up_to_total(total, rest);
        assert(events[events.len() - 1] is Finished || events[events.len() - 1] is Skipped);
    }
}

/// The registry's copy of a job carries the counts, stage and page of the
/// `jobProgress` event sent for it.
pub open spec fn registry_matches_event<P>(job: JobSummary<P>, sent: Option<SequencedEvent<P>>) -> bool {
    match sent {
        Some(e) => match e.event {
            AppEvent::JobProgress(p) => job.completed == p.completed && job.total == p.total
                && job.stage == p.stage && job.page == p.current_page,
            _ => false,
        },
        None => false,
    }
}

/// A `Started` report resets the count to nothing done out of every
/// page-stage step: the total is the number of pages times the number of
/// stages, or `usize::MAX` when that product does not fit.
pub proof fn lemma_started_counts_every_page_stage<P>(c: (usize, usize), pages: usize, stages: usize)
    ensures
        ({
            let t: usize = if pages * stages <= usize::MAX {
                (pages * stages) as usize
            } else {
                usize::MAX
            };
            progress_step(c, ProgressEvent::<P>::Started { pages, stages }) == (
                (0usize, t),
                Some(ProgressUpdate::<P> { completed: 0, total: t, page: None, stage: None, model: None }),
            )
        }),
{
}

/// A progress report reaches the registry whole: a registered job takes the
/// report's counts, page, stage and model and keeps its id, kind, status
/// and error; every other job is untouched.
pub proof fn lemma_progress_reaches_the_registry<P>(
    jobs: Map<Seq<char>, JobSummary<P>>,
    id: Seq<char>,
    u: ProgressUpdate<P>,
    other: Seq<char>,
)
    requires
        jobs.contains_key(id),
        other != id,
    ensures
        after_progress(jobs, id, u)[id].completed == Some(u.completed),
        after_progress(jobs, id, u)[id].total == Some(u.total),
        after_progress(jobs, id, u)[id].page == u.page,
        after_progress(jobs, id, u)[id].stage == u.stage,
        after_progress(jobs, id, u)[id].model == u.model,
        after_progress(jobs, id, u)[id].id == jobs[id].id,
        after_progress(jobs, id, u)[id].kind == jobs[id].kind,
        after_progress(jobs, id, u)[id].status == jobs[id].status,
        after_progress(jobs, id, u)[id].error == jobs[id].error,
        jobs.contains_key(other) ==> after_progress(jobs, id, u)[other] == jobs[other],
{
}

} // verus!
