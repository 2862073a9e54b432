//! Bookkeeping for background copy/move jobs.
//!
//! The worker thread, its channels and the copying itself are the caller's;
//! this module numbers jobs, keeps the latest progress report, and decides,
//! source by source, what a job does next and what it reports when done.
use vstd::prelude::*;

use crate::engine::path::{file_name_chars, file_name_spec};
use crate::text::{chars_of, string_of};

verus! {

/// Unique identifier for a background job.
pub type JobId = u64;

/// Kind of background operation.
#[derive(Clone, Debug)]
pub enum JobKind {
    Copy { sources: Vec<String>, destination: String },
    Move { sources: Vec<String>, destination: String },
}

/// Progress reported by the worker.
#[derive(Clone, Debug)]
pub struct JobProgress {
    pub job_id: JobId,
    pub bytes_copied: u64,
    pub total_bytes: u64,
    pub current_file: String,
    pub files_completed: usize,
    pub total_files: usize,
    pub is_finished: bool,
    pub error: Option<String>,
}

/// Completion result sent when a job finishes.
#[derive(Clone, Debug)]
pub struct JobCompleted {
    pub job_id: JobId,
    pub kind: JobKind,
    pub created_destinations: Vec<String>,
    pub error: Option<String>,
}

/// A job handed to the worker.
pub struct JobRequest {
    pub id: JobId,
    pub kind: JobKind,
}

/// Job numbering, the job that can be cancelled, and the latest progress.
pub struct AsyncIoEngine {
    next_id: u64,
    active: Option<JobId>,
    pub current_progress: Option<JobProgress>,
}

pub struct EngineView {
    pub next_id: u64,
    pub active: Option<JobId>,
    pub progress: Option<JobProgress>,
}

impl View for AsyncIoEngine {
    type V = EngineView;

    closed spec fn view(&self) -> EngineView {
        EngineView { next_id: self.next_id, active: self.active, progress: self.current_progress }
    }
}

/// The latest progress after a batch of reports: a finished report clears
/// it, any other report replaces it, no report leaves it.
pub open spec fn progress_after(cur: Option<JobProgress>, updates: Seq<JobProgress>) -> Option<JobProgress> {
    if updates.len() == 0 {
        cur
    } else if updates.last().is_finished {
        None
    } else {
        Some(updates.last())
    }
}

impl AsyncIoEngine {
    pub fn new() -> (e: Self)
        ensures
            e@.next_id == 1,
            e@.active is None,
            e@.progress is None,
    {
        AsyncIoEngine { next_id: 1, active: None, current_progress: None }
    }

    fn submit(&mut self, kind: JobKind) -> (r: JobRequest)
        ensures
            r.id == old(self)@.next_id,
            r.kind == kind,
            final(self)@.next_id == old(self)@.next_id.wrapping_add(1),
            final(self)@.active == Some(r.id),
            final(self)@.progress == old(self)@.progress,
    {
        let id = self.next_id;
        self.next_id = self.next_id.wrapping_add(1);
        self.active = Some(id);
        JobRequest { id, kind }
    }

    /// Number a copy job and make it the cancellable one; the request is
    /// for the caller to hand to the worker.
    pub fn submit_copy(&mut self, sources: Vec<String>, destination: String) -> (r: JobRequest)
        ensures
            r.id == old(self)@.next_id,
            r.kind == (JobKind::Copy { sources, destination }),
            final(self)@.next_id == old(self)@.next_id.wrapping_add(1),
            final(self)@.active == Some(r.id),
            final(self)@.progress == old(self)@.progress,
    {
        self.submit(JobKind::Copy { sources, destination })
    }

    /// Number a move job and make it the cancellable one.
    pub fn submit_move(&mut self, sources: Vec<String>, destination: String) -> (r: JobRequest)
        ensures
            r.id == old(self)@.next_id,
            r.kind == (JobKind::Move { sources, destination }),
            final(self)@.next_id == old(self)@.next_id.wrapping_add(1),
            final(self)@.active == Some(r.id),
            final(self)@.progress == old(self)@.progress,
    {
        self.submit(JobKind::Move { sources, destination })
    }

    /// The job whose cancel flag the caller raises, if one was submitted.
    pub fn cancel_active(&self) -> (r: Option<JobId>)
        ensures
            r == self@.active,
    {
        self.active
    }

    /// Take in the progress reports and the completion (if any) that the
    /// worker sent since the last poll; the completion is handed back.
    pub fn poll(&mut self, updates: Vec<JobProgress>, completion: Option<JobCompleted>) -> (r: Option<JobCompleted>)
        ensures
            r == completion,
            final(self)@.next_id == old(self)@.next_id,
            final(self)@.active == old(self)@.active,
            final(self)@.progress == progress_after(old(self)@.progress, updates@),
    {
        let mut updates = updates;
        match updates.pop() {
            Some(last) => {
                if last.is_finished {
                    self.current_progress = None;
                } else {
                    self.current_progress = Some(last);
                }
            },
            None => {},
        }
        completion
    }
}

/// What a job does next.
pub enum JobStep {
    /// Copy or move `source` (whose file name is `name`) into the
    /// destination, then [`JobRun::record`] the outcome.
    Transfer { source: String, name: String },
    /// Nothing is left to do: build the completion.
    Finished,
}

/// A job in progress: which source comes next, what was created, and the
/// error that stopped it.
pub struct JobRun {
    pub id: JobId,
    pub kind: JobKind,
    next: usize,
    created: Vec<String>,
    error: Option<String>,
    done: bool,
}

pub struct RunView {
    pub id: JobId,
    pub kind: JobKind,
    pub sources: Seq<String>,
    pub next: int,
    pub created: Seq<String>,
    pub error: Option<String>,
    pub done: bool,
}

pub open spec fn kind_sources(k: JobKind) -> Seq<String> {
    match k {
        JobKind::Copy { sources, .. } => sources@,
        JobKind::Move { sources, .. } => sources@,
    }
}

impl View for JobRun {
    type V = RunView;

    closed spec fn view(&self) -> RunView {
        RunView {
            id: self.id,
            kind: self.kind,
            sources: kind_sources(self.kind),
            next: self.next as int,
            created: self.created@,
            error: self.error,
            done: self.done,
        }
    }
}

/// The first source at or after `i` that has a file name.
pub open spec fn first_named(srcs: Seq<String>, i: int) -> int
    decreases srcs.len() - i,
{
    if i >= srcs.len() || i < 0 {
        srcs.len() as int
    } else if file_name_spec(srcs[i]@) is Some {
        i
    } else {
        first_named(srcs, i + 1)
    }
}

proof fn lemma_first_named(srcs: Seq<String>, i: int)
    requires
        0 <= i <= srcs.len(),
    ensures
        i <= first_named(srcs, i) <= srcs.len(),
        first_named(srcs, i) < srcs.len() ==> file_name_spec(srcs[first_named(srcs, i)]@) is Some,
    decreases srcs.len() - i,
{
    if i < srcs.len() && file_name_spec(srcs[i]@) is None {
        lemma_first_named(srcs, i + 1);
    }
}

impl JobRun {
    pub fn wf(&self) -> (r: bool)
        ensures
            r == (self@.next <= self@.sources.len()),
    {
        let n = match &self.kind {
            JobKind::Copy { sources, .. } => sources.len(),
            JobKind::Move { sources, .. } => sources.len(),
        };
        self.next <= n
    }

    /// Start running a job received by the worker.
    pub fn start(req: JobRequest) -> (r: JobRun)
        ensures
            r@.id == req.id,
            r@.kind == req.kind,
            r@.next == 0,
            r@.created.len() == 0,
            r@.error is None,
            !r@.done,
    {
        JobRun { id: req.id, kind: req.kind, next: 0, created: Vec::new(), error: None, done: false }
    }

    /// Decide the next step. `cancelled` is the job's cancel flag as read
    /// now. Sources without a file name are skipped; a raised flag stops the
    /// job with "Operation cancelled" while sources remain.
    pub fn next_step(&mut self, cancelled: bool) -> (r: JobStep)
        requires
            old(self)@.next <= old(self)@.sources.len(),
        ensures
            final(self)@.id == old(self)@.id,
            final(self)@.kind == old(self)@.kind,
            final(self)@.created == old(self)@.created,
            final(self)@.next <= final(self)@.sources.len(),
            old(self)@.done ==> r is Finished && final(self)@ == old(self)@,
            !old(self)@.done && old(self)@.next < old(self)@.sources.len() && cancelled ==> r is Finished
                && final(self)@.done && final(self)@.error == Some::<String>(final(self)@.error->0)
                && final(self)@.error->0@ == "Operation cancelled"@,
            !old(self)@.done && (old(self)@.next == old(self)@.sources.len() || !cancelled) ==> ({
                let j = first_named(old(self)@.sources, old(self)@.next);
                if j == old(self)@.sources.len() {
                    r is Finished && final(self)@.done && final(self)@.error == old(self)@.error
                } else {
                    &&& r matches JobStep::Transfer { source, name }
                    &&& source == old(self)@.sources[j]
                    &&& file_name_spec(source@) == Some(name@)
                    &&& final(self)@.next == j + 1
                    &&& !final(self)@.done
                    &&& final(self)@.error == old(self)@.error
                }
            }),
    {
        if self.done {
            return JobStep::Finished;
        }
        let n = match &self.kind {
            JobKind::Copy { sources, .. } => sources.len(),
            JobKind::Move { sources, .. } => sources.len(),
        };
        if self.next < n && cancelled {
            self.error = Some(String::from_str("Operation cancelled"));
            self.done = true;
            return JobStep::Finished;
        }
        let ghost srcs = self@.sources;
        let ghost start = self.next as int;
        proof {
            lemma_first_named(srcs, start);
        }
        while self.next < n
            invariant
                n == srcs.len(),
                srcs == kind_sources(self.kind),
                start <= self.next <= n,
                first_named(srcs, self.next as int) == first_named(srcs, start),
                !self.done,
                self.id == old(self).id,
                self.kind == old(self).kind,
                self.created == old(self).created,
                self.error == old(self).error,
                !old(self).done,
                start == old(self).next,
                old(self).next == n || !cancelled,
            decreases n - self.next,
        {
            let i = self.next;
            let src: String = match &self.kind {
                JobKind::Copy { sources, .. } => sources[i].clone(),
                JobKind::Move { sources, .. } => sources[i].clone(),
            };
            assert(src@ == srcs[i as int]@);
            self.next = i + 1;
            let c = chars_of(src.as_str());
            match file_name_chars(c.as_slice()) {
                Some(name) => {
                    return JobStep::Transfer { source: src, name: string_of(name.as_slice()) };
                },
                None => {},
            }
        }
        self.done = true;
        JobStep::Finished
    }

    /// Record the outcome of a transfer: the path created, or the error
    /// that stops the job.
    pub fn record(&mut self, outcome: Result<String, String>)
        ensures
            final(self)@.id == old(self)@.id,
            final(self)@.kind == old(self)@.kind,
            final(self)@.next == old(self)@.next,
            match outcome {
                Ok(p) => final(self)@.created == old(self)@.created.push(p) && final(self)@.error
                    == old(self)@.error && final(self)@.done == old(self)@.done,
                Err(e) => final(self)@.created == old(self)@.created && final(self)@.error == Some(e)
                    && final(self)@.done,
            },
    {
        match outcome {
            Ok(p) => self.created.push(p),
            Err(e) => {
                self.error = Some(e);
                self.done = true;
            },
        }
    }

    /// The completion message of the job: what was created and the error.
    pub fn complete(self) -> (c: JobCompleted)
        ensures
            c.job_id == self@.id,
            c.kind == self@.kind,
            c.created_destinations@ == self@.created,
            c.error == self@.error,
    {
        JobCompleted { job_id: self.id, kind: self.kind, created_destinations: self.created, error: self.error }
    }
}

} // verus!
