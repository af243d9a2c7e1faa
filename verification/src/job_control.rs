//! Bookkeeping of jobs: the processes a command line started, their states,
//! the job table and the job specifications `%n` given to `fg` and `bg`.
//!
//! The system calls (waiting, signalling, terminal ownership) are made by the
//! caller; this module decides what their outcomes mean.

use vstd::prelude::*;

use crate::text::{
    all_digits, chars_of, nat_decimal, parse_u32, parse_u32_spec, push_decimal, push_str,
};

verus! {

/// The number the user refers to a job by.
#[derive(Debug, Clone, Copy, PartialEq, Eq, PartialOrd, Ord, Structural)]
pub struct JobId(pub u32);

/// The state of one process of a job.
#[derive(Debug, Clone, Copy, PartialEq, Eq, Structural)]
pub enum ProcessState {
    Running,
    /// Stopped by the given signal number.
    Stopped(u8),
    /// Finished with the given shell status.
    Completed(i32),
}

/// A stage of a pipeline as it was started: a process, or a status known
/// without starting anything.
#[derive(Debug, Clone, Copy, PartialEq, Eq, Structural)]
pub enum JobStage {
    Process(i32),
    Completed(i32),
}

/// A process and its last known state.
#[derive(Debug, Clone, Copy, PartialEq, Eq, Structural)]
pub struct ProcessRecord {
    pub pid: i32,
    pub state: ProcessState,
}

/// A stage of a running job.
#[derive(Debug, Clone, Copy, PartialEq, Eq, Structural)]
pub enum RuntimeStage {
    Process(ProcessRecord),
    Completed(i32),
}

/// The state of a whole job.
#[derive(Debug, Clone, Copy, PartialEq, Eq, Structural)]
pub enum JobState {
    Running,
    Stopped,
    Done,
}

/// A change of state of a child process, as reported by `waitpid`.
#[derive(Debug, Clone, Copy, PartialEq, Eq, Structural)]
pub enum WaitEvent {
    /// The process exited with the given code.
    Exited(i32, i32),
    /// The process was killed by the given signal.
    Signaled(i32, u8),
    /// The process was stopped by the given signal.
    Stopped(i32, u8),
    /// The process was continued.
    Continued(i32),
    /// A tracing event of the process.
    Traced(i32),
    /// Nothing changed.
    StillAlive,
}

/// The process an event is about.
pub open spec fn event_pid(e: WaitEvent) -> Option<i32> {
    match e {
        WaitEvent::Exited(pid, _) => Some(pid),
        WaitEvent::Signaled(pid, _) => Some(pid),
        WaitEvent::Stopped(pid, _) => Some(pid),
        WaitEvent::Continued(pid) => Some(pid),
        WaitEvent::Traced(pid) => Some(pid),
        WaitEvent::StillAlive => None,
    }
}

/// The state a process is in after an event, for events that change it:
/// an exit gives its code, a killing signal `128 + signal`.
pub open spec fn event_state(e: WaitEvent) -> Option<ProcessState> {
    match e {
        WaitEvent::Exited(_, code) => Some(ProcessState::Completed(code)),
        WaitEvent::Signaled(_, sig) => Some(ProcessState::Completed((128 + sig) as i32)),
        WaitEvent::Stopped(_, sig) => Some(ProcessState::Stopped(sig)),
        WaitEvent::Continued(_) => Some(ProcessState::Running),
        _ => None,
    }
}

/// The shell status of a terminated process, for events that end it.
pub open spec fn termination_status_spec(e: WaitEvent) -> Option<i32> {
    match e {
        WaitEvent::Exited(_, code) => Some(code),
        WaitEvent::Signaled(_, sig) => Some((128 + sig) as i32),
        _ => None,
    }
}

impl WaitEvent {
    /// The process the event is about; nothing for `StillAlive`.
    pub fn pid(&self) -> (r: Option<i32>)
        ensures
            r == event_pid(*self),
    {
        match *self {
            WaitEvent::Exited(pid, _) => Some(pid),
            WaitEvent::Signaled(pid, _) => Some(pid),
            WaitEvent::Stopped(pid, _) => Some(pid),
            WaitEvent::Continued(pid) => Some(pid),
            WaitEvent::Traced(pid) => Some(pid),
            WaitEvent::StillAlive => None,
        }
    }

    /// The shell status of a process this event ends: the exit code, or
    /// `128 + signal` for a killing signal.
    pub fn termination_status(&self) -> (r: Option<i32>)
        ensures
            r == termination_status_spec(*self),
    {
        match *self {
            WaitEvent::Exited(_, code) => Some(code),
            WaitEvent::Signaled(_, sig) => Some(128 + sig as i32),
            _ => None,
        }
    }

    fn new_state(&self) -> (r: Option<ProcessState>)
        ensures
            r == event_state(*self),
    {
        match *self {
            WaitEvent::Exited(_, code) => Some(ProcessState::Completed(code)),
            WaitEvent::Signaled(_, sig) => Some(ProcessState::Completed(128 + sig as i32)),
            WaitEvent::Stopped(_, sig) => Some(ProcessState::Stopped(sig)),
            WaitEvent::Continued(_) => Some(ProcessState::Running),
            _ => None,
        }
    }
}

/// The stage is a process that is running.
pub open spec fn is_running(s: RuntimeStage) -> bool {
    s matches RuntimeStage::Process(p) && p.state == ProcessState::Running
}

/// The stage is a process that is stopped.
pub open spec fn is_stopped(s: RuntimeStage) -> bool {
    s matches RuntimeStage::Process(p) && p.state is Stopped
}

/// A job is running while any of its processes runs, stopped when none runs
/// but some is stopped, and done otherwise.
pub open spec fn job_state_of(stages: Seq<RuntimeStage>) -> JobState {
    if exists|i: int| 0 <= i < stages.len() && is_running(#[trigger] stages[i]) {
        JobState::Running
    } else if exists|i: int| 0 <= i < stages.len() && is_stopped(#[trigger] stages[i]) {
        JobState::Stopped
    } else {
        JobState::Done
    }
}

/// The status of a job is that of its last stage: a status, `128 + signal`
/// for a stopped process, and 0 for a running one or an empty job.
pub open spec fn status_of(stages: Seq<RuntimeStage>) -> i32 {
    if stages.len() == 0 {
        0
    } else {
        match stages.last() {
            RuntimeStage::Completed(s) => s,
            RuntimeStage::Process(p) => match p.state {
                ProcessState::Completed(s) => s,
                ProcessState::Stopped(sig) => (128 + sig) as i32,
                ProcessState::Running => 0,
            },
        }
    }
}

/// The stage as it starts running.
pub open spec fn runtime_stage(s: JobStage) -> RuntimeStage {
    match s {
        JobStage::Process(pid) => RuntimeStage::Process(ProcessRecord { pid, state: ProcessState::Running }),
        JobStage::Completed(st) => RuntimeStage::Completed(st),
    }
}

/// Stage `i` is the process `pid`.
pub open spec fn has_pid(s: RuntimeStage, pid: i32) -> bool {
    s matches RuntimeStage::Process(p) && p.pid == pid
}

/// Some stage is the process `pid`.
pub open spec fn has_process(stages: Seq<RuntimeStage>, pid: i32) -> bool {
    exists|k: int| 0 <= k < stages.len() && has_pid(#[trigger] stages[k], pid)
}

/// The index of the first stage running process `pid`.
pub open spec fn first_pid_index(stages: Seq<RuntimeStage>, pid: i32) -> int {
    choose|k: int|
        0 <= k < stages.len() && has_pid(#[trigger] stages[k], pid) && forall|j: int|
            0 <= j < k ==> !has_pid(#[trigger] stages[j], pid)
}

/// The job after an event that changes the state of one of its processes:
/// the first stage running that process takes the new state, the job state
/// is recomputed and the change is yet to be reported.
pub open spec fn job_after_event(j: JobV, e: WaitEvent) -> JobV {
    let pid = event_pid(e)->0;
    let stages = j.stages.update(
        first_pid_index(j.stages, pid),
        RuntimeStage::Process(ProcessRecord { pid, state: event_state(e)->0 }),
    );
    JobV { stages, state: job_state_of(stages), notified: false, ..j }
}

/// The first stage with a given process is unique.
pub proof fn lemma_first_pid_index(stages: Seq<RuntimeStage>, pid: i32, k: int)
    requires
        0 <= k < stages.len(),
        has_pid(stages[k], pid),
        forall|j: int| 0 <= j < k ==> !has_pid(#[trigger] stages[j], pid),
    ensures
        first_pid_index(stages, pid) == k,
{
    let c = first_pid_index(stages, pid);
    assert(0 <= c < stages.len() && has_pid(stages[c], pid) && forall|j: int|
        0 <= j < c ==> !has_pid(#[trigger] stages[j], pid));
    if c < k {
        assert(!has_pid(stages[c], pid));
    }
    if c > k {
        assert(!has_pid(stages[k], pid));
    }
}

/// The stage after `SIGCONT`: a stopped process runs again.
pub open spec fn resumed(s: RuntimeStage) -> RuntimeStage {
    match s {
        RuntimeStage::Process(p) => if p.state is Stopped {
            RuntimeStage::Process(ProcessRecord { pid: p.pid, state: ProcessState::Running })
        } else {
            s
        },
        RuntimeStage::Completed(_) => s,
    }
}

/// The label of a job state in listings, padded to seven characters.
pub open spec fn state_label(s: JobState) -> Seq<char> {
    match s {
        JobState::Running => seq!['R', 'u', 'n', 'n', 'i', 'n', 'g'],
        JobState::Stopped => seq!['S', 't', 'o', 'p', 'p', 'e', 'd'],
        JobState::Done => seq!['D', 'o', 'n', 'e', ' ', ' ', ' '],
    }
}

/// The line `[id] State   text` that lists a job.
pub open spec fn display_line_spec(id: u32, state: JobState, text: Seq<char>) -> Seq<char> {
    seq!['['] + nat_decimal(id as nat) + seq![']', ' '] + state_label(state) + seq![' '] + text
}

/// The value of a job.
pub struct JobV {
    pub id: u32,
    pub pgid: i32,
    pub text: Seq<char>,
    pub stages: Seq<RuntimeStage>,
    pub state: JobState,
    pub notified: bool,
}

/// A job: a process group started from one command line.
#[derive(Debug)]
pub struct Job {
    pub id: JobId,
    pub pgid: i32,
    pub command_text: String,
    pub stages: Vec<RuntimeStage>,
    pub state: JobState,
    pub notified: bool,
}

impl View for Job {
    type V = JobV;

    open spec fn view(&self) -> JobV {
        JobV {
            id: self.id.0,
            pgid: self.pgid,
            text: self.command_text@,
            stages: self.stages@,
            state: self.state,
            notified: self.notified,
        }
    }
}

impl Job {
    /// A job whose stages start running; its state follows from them.
    pub fn new(id: JobId, pgid: i32, command_text: String, stages: Vec<JobStage>) -> (j: Job)
        ensures
            j@.id == id.0,
            j@.pgid == pgid,
            j@.text == command_text@,
            j@.stages == stages@.map_values(|s: JobStage| runtime_stage(s)),
            j@.state == job_state_of(j@.stages),
            !j@.notified,
    {
        let mut runtime: Vec<RuntimeStage> = Vec::new();
        let mut i: usize = 0;
        while i < stages.len()
            invariant
                i <= stages@.len(),
                runtime@ == stages@.take(i as int).map_values(|s: JobStage| runtime_stage(s)),
            decreases stages@.len() - i,
        {
            let r = match stages[i] {
                JobStage::Process(pid) => RuntimeStage::Process(
                    ProcessRecord { pid, state: ProcessState::Running },
                ),
                JobStage::Completed(status) => RuntimeStage::Completed(status),
            };
            runtime.push(r);
            assert(stages@.take(i + 1).map_values(|s: JobStage| runtime_stage(s)) =~= stages@.take(
                i as int,
            ).map_values(|s: JobStage| runtime_stage(s)).push(runtime_stage(stages@[i as int])));
            i = i + 1;
        }
        assert(stages@.take(i as int) == stages@);
        let mut job = Job {
            id,
            pgid,
            command_text,
            stages: runtime,
            state: JobState::Running,
            notified: false,
        };
        job.recompute_state();
        job
    }

    /// Recomputes the job state from the states of its processes.
    pub fn recompute_state(&mut self)
        ensures
            final(self)@ == (JobV { state: job_state_of(old(self)@.stages), ..old(self)@ }),
    {
        let mut running = false;
        let mut stopped = false;
        let mut i: usize = 0;
        while i < self.stages.len()
            invariant
                i <= self.stages@.len(),
                self@ == old(self)@,
                running == exists|k: int| 0 <= k < i && is_running(#[trigger] self.stages@[k]),
                stopped == exists|k: int| 0 <= k < i && is_stopped(#[trigger] self.stages@[k]),
            decreases self.stages@.len() - i,
        {
            match self.stages[i] {
                RuntimeStage::Process(ProcessRecord { state: ProcessState::Running, .. }) => {
                    running = true;
                },
                RuntimeStage::Process(ProcessRecord { state: ProcessState::Stopped(_), .. }) => {
                    stopped = true;
                },
                _ => {},
            }
            i = i + 1;
        }
        self.state = if running {
            JobState::Running
        } else if stopped {
            JobState::Stopped
        } else {
            JobState::Done
        };
    }

    /// Applies a `waitpid` event to the first stage running the process it
    /// is about. Returns whether the job took the event; an event for no
    /// process of the job, or one that changes no state, leaves it unchanged.
    pub fn apply_wait_status(&mut self, status: WaitEvent) -> (taken: bool)
        ensures
            taken == (event_pid(status) is Some && has_process(old(self)@.stages, event_pid(status)->0)
                && event_state(status) is Some),
            !taken ==> final(self)@ == old(self)@,
            taken ==> final(self)@ == job_after_event(old(self)@, status),
    {
        let pid = match status.pid() {
            Some(pid) => pid,
            None => {
                return false;
            },
        };
        let mut i: usize = 0;
        while i < self.stages.len()
            invariant
                i <= self.stages@.len(),
                self@ == old(self)@,
                event_pid(status) == Some(pid),
                forall|j: int| 0 <= j < i ==> !has_pid(#[trigger] self.stages@[j], pid),
            decreases self.stages@.len() - i,
        {
            let found = match self.stages[i] {
                RuntimeStage::Process(p) => p.pid == pid,
                RuntimeStage::Completed(_) => false,
            };
            if found {
                let state = match status.new_state() {
                    Some(state) => state,
                    None => {
                        return false;
                    },
                };
                let ghost k = i as int;
                self.stages.set(i, RuntimeStage::Process(ProcessRecord { pid, state }));
                self.notified = false;
                self.recompute_state();
                assert(has_pid(old(self)@.stages[k], pid));
                assert(has_process(old(self)@.stages, pid));
                proof {
                    lemma_first_pid_index(old(self)@.stages, pid, k);
                }
                return true;
            }
            i = i + 1;
        }
        false
    }

    /// Whether some stage of the job runs process `pid`.
    pub fn has_process(&self, pid: i32) -> (b: bool)
        ensures
            b == has_process(self@.stages, pid),
    {
        let mut i: usize = 0;
        while i < self.stages.len()
            invariant
                i <= self.stages@.len(),
                forall|j: int| 0 <= j < i ==> !has_pid(#[trigger] self.stages@[j], pid),
            decreases self.stages@.len() - i,
        {
            match self.stages[i] {
                RuntimeStage::Process(p) => {
                    if p.pid == pid {
                        assert(has_pid(self.stages@[i as int], pid));
                        return true;
                    }
                },
                RuntimeStage::Completed(_) => {},
            }
            i = i + 1;
        }
        false
    }

    /// The shell status of the job: that of its last stage.
    pub fn status_code(&self) -> (s: i32)
        ensures
            s == status_of(self@.stages),
    {
        let n = self.stages.len();
        if n == 0 {
            return 0;
        }
        match self.stages[n - 1] {
            RuntimeStage::Completed(status) => status,
            RuntimeStage::Process(ProcessRecord { state: ProcessState::Completed(status), .. }) => status,
            RuntimeStage::Process(ProcessRecord { state: ProcessState::Stopped(signal), .. }) => 128
                + signal as i32,
            RuntimeStage::Process(ProcessRecord { state: ProcessState::Running, .. }) => 0,
        }
    }

    /// After `SIGCONT`: every stopped process runs again and the job is
    /// running.
    pub fn mark_running(&mut self)
        ensures
            final(self)@ == (JobV {
                stages: old(self)@.stages.map_values(|s: RuntimeStage| resumed(s)),
                state: JobState::Running,
                notified: false,
                ..old(self)@
            }),
    {
        let mut i: usize = 0;
        while i < self.stages.len()
            invariant
                i <= self.stages@.len(),
                self.stages@.len() == old(self)@.stages.len(),
                forall|j: int| 0 <= j < i ==> #[trigger] self.stages@[j] == resumed(old(self)@.stages[j]),
                forall|j: int| i <= j < self.stages@.len() ==> #[trigger] self.stages@[j] == old(self)@.stages[j],
                self.id == old(self).id,
                self.pgid == old(self).pgid,
                self.command_text == old(self).command_text,
                self.state == old(self).state,
                self.notified == old(self).notified,
            decreases self.stages@.len() - i,
        {
            let s = self.stages[i];
            let r = match s {
                RuntimeStage::Process(p) => match p.state {
                    ProcessState::Stopped(_) => RuntimeStage::Process(
                        ProcessRecord { pid: p.pid, state: ProcessState::Running },
                    ),
                    _ => s,
                },
                RuntimeStage::Completed(_) => s,
            };
            self.stages.set(i, r);
            i = i + 1;
        }
        assert(self.stages@ =~= old(self)@.stages.map_values(|s: RuntimeStage| resumed(s)));
        self.state = JobState::Running;
        self.notified = false;
    }

    /// The line that lists the job: `[id] State   text`.
    pub fn display_line(&self) -> (line: String)
        ensures
            line@ == display_line_spec(self.id.0, self.state, self.command_text@),
    {
        let mut line = String::new();
        line.push('[');
        push_decimal(&mut line, self.id.0);
        line.push(']');
        line.push(' ');
        let label = match self.state {
            JobState::Running => "Running",
            JobState::Stopped => "Stopped",
            JobState::Done => "Done   ",
        };
        proof {
            reveal_strlit("Running");
            reveal_strlit("Stopped");
            reveal_strlit("Done   ");
            assert(label@ == state_label(self.state));
        }
        push_str(&mut line, label);
        line.push(' ');
        push_str(&mut line, self.command_text.as_str());
        assert(line@ =~= display_line_spec(self.id.0, self.state, self.command_text@));
        line
    }
}


// ---------------------------------------------------------------------------
// The job table
// ---------------------------------------------------------------------------

/// Why a job specification does not give a usable job.
#[derive(Debug, PartialEq, Eq)]
pub enum JobLookupError {
    /// No job fits the default choice.
    NoCurrentJob,
    /// The specification is not `%` followed by a job number.
    InvalidJobSpec(String),
    /// No job has the given number.
    UnknownJob(JobId),
    /// The job is not stopped.
    JobNotStopped(JobId),
}

/// The value of a [`JobLookupError`].
pub enum LookupErrV {
    NoCurrentJob,
    InvalidJobSpec(Seq<char>),
    UnknownJob(u32),
    JobNotStopped(u32),
}

impl View for JobLookupError {
    type V = LookupErrV;

    open spec fn view(&self) -> LookupErrV {
        match self {
            JobLookupError::NoCurrentJob => LookupErrV::NoCurrentJob,
            JobLookupError::InvalidJobSpec(s) => LookupErrV::InvalidJobSpec(s@),
            JobLookupError::UnknownJob(id) => LookupErrV::UnknownJob(id.0),
            JobLookupError::JobNotStopped(id) => LookupErrV::JobNotStopped(id.0),
        }
    }
}

/// The diagnostic of a lookup failure.
pub open spec fn lookup_message(e: LookupErrV) -> Seq<char> {
    match e {
        LookupErrV::NoCurrentJob => "no current job"@,
        LookupErrV::InvalidJobSpec(s) => "invalid job specification `"@ + s + "`"@,
        LookupErrV::UnknownJob(n) => "job %"@ + nat_decimal(n as nat) + " does not exist"@,
        LookupErrV::JobNotStopped(n) => "job %"@ + nat_decimal(n as nat) + " is not stopped"@,
    }
}

impl JobLookupError {
    /// The diagnostic of the failure; see [`lookup_message`].
    pub fn message(&self) -> (m: String)
        ensures
            m@ == lookup_message(self@),
    {
        let mut m = String::new();
        match self {
            JobLookupError::NoCurrentJob => {
                push_str(&mut m, "no current job");
            },
            JobLookupError::InvalidJobSpec(s) => {
                push_str(&mut m, "invalid job specification `");
                push_str(&mut m, s.as_str());
                push_str(&mut m, "`");
            },
            JobLookupError::UnknownJob(id) => {
                push_str(&mut m, "job %");
                push_decimal(&mut m, id.0);
                push_str(&mut m, " does not exist");
            },
            JobLookupError::JobNotStopped(id) => {
                push_str(&mut m, "job %");
                push_decimal(&mut m, id.0);
                push_str(&mut m, " is not stopped");
            },
        }
        m
    }
}

/// The line listing a job value.
pub open spec fn job_line(j: JobV) -> Seq<char> {
    display_line_spec(j.id, j.state, j.text)
}

/// The job has a change of state the user has not been told about.
pub open spec fn reportable(j: JobV) -> bool {
    !j.notified && (j.state == JobState::Stopped || j.state == JobState::Done)
}

/// The notification lines for a list of jobs, in order.
pub open spec fn notify_lines(js: Seq<JobV>) -> Seq<Seq<char>>
    decreases js.len(),
{
    if js.len() == 0 {
        seq![]
    } else {
        (if reportable(js[0]) {
            seq![job_line(js[0])]
        } else {
            seq![]
        }) + notify_lines(js.drop_first())
    }
}

/// The jobs kept after notifying: reported jobs are marked as notified,
/// and reported jobs that are done are dropped.
pub open spec fn after_notify(js: Seq<JobV>) -> Seq<JobV>
    decreases js.len(),
{
    if js.len() == 0 {
        seq![]
    } else {
        let rest = after_notify(js.drop_first());
        if reportable(js[0]) {
            if js[0].state == JobState::Done {
                rest
            } else {
                seq![JobV { notified: true, ..js[0] }] + rest
            }
        } else {
            seq![js[0]] + rest
        }
    }
}

/// The jobs that are not done.
pub open spec fn not_done(js: Seq<JobV>) -> Seq<JobV>
    decreases js.len(),
{
    if js.len() == 0 {
        seq![]
    } else {
        (if js[0].state == JobState::Done {
            seq![]
        } else {
            seq![js[0]]
        }) + not_done(js.drop_first())
    }
}

/// Law: a change of state is reported once: right after the notifications
/// are taken, there is nothing left to report.
pub proof fn law_changes_are_reported_once(js: Seq<JobV>)
    ensures
        notify_lines(after_notify(js)) == Seq::<Seq<char>>::empty(),
    decreases js.len(),
{
    if js.len() > 0 {
        law_changes_are_reported_once(js.drop_first());
        let rest = after_notify(js.drop_first());
        let all = after_notify(js);
        if reportable(js[0]) && js[0].state == JobState::Done {
            assert(all == rest);
        } else {
            assert(all.drop_first() == rest);
            assert(!reportable(all[0]));
        }
    }
}

/// Law: listing the jobs leaves only jobs that are not done.
pub proof fn law_listing_forgets_done_jobs(js: Seq<JobV>)
    ensures
        forall|k: int| 0 <= k < not_done(js).len() ==> (#[trigger] not_done(js)[k]).state != JobState::Done,
    decreases js.len(),
{
    if js.len() > 0 {
        law_listing_forgets_done_jobs(js.drop_first());
        let rest = not_done(js.drop_first());
        if js[0].state != JobState::Done {
            assert forall|k: int| 0 <= k < not_done(js).len() implies (#[trigger] not_done(js)[k]).state
                != JobState::Done by {
                if k > 0 {
                    assert(not_done(js)[k] == rest[k - 1]);
                }
            }
        } else {
            assert(not_done(js) == rest);
        }
    }
}

/// Law: listing the jobs forgets exactly the finished ones: what is kept
/// is every job that is running or stopped, in job order.
pub proof fn law_listing_keeps_unfinished_jobs(js: Seq<JobV>)
    ensures
        not_done(js) == js.filter(|j: JobV| j.state != JobState::Done),
    decreases js.len(),
{
    let pred = |j: JobV| j.state != JobState::Done;
    if js.len() == 0 {
        reveal(Seq::filter);
    } else {
        law_listing_keeps_unfinished_jobs(js.drop_first());
        let head = seq![js[0]];
        assert(js == head + js.drop_first());
        Seq::filter_distributes_over_add(head, js.drop_first(), pred);
        reveal(Seq::filter);
        assert(head.drop_last() =~= Seq::<JobV>::empty());
        assert(Seq::<JobV>::empty().filter(pred) =~= Seq::<JobV>::empty());
        if pred(js[0]) {
            assert(head.filter(pred) =~= head);
        } else {
            assert(head.filter(pred) =~= Seq::<JobV>::empty());
        }
    }
}

/// The job is a candidate for the default choice.
pub open spec fn default_candidate(j: JobV, stopped_only: bool) -> bool {
    !stopped_only || j.state == JobState::Stopped
}

/// The number of the last (highest numbered) candidate job.
pub open spec fn last_candidate(js: Seq<JobV>, stopped_only: bool) -> Option<u32>
    decreases js.len(),
{
    if js.len() == 0 {
        None
    } else if default_candidate(js.last(), stopped_only) {
        Some(js.last().id)
    } else {
        last_candidate(js.drop_last(), stopped_only)
    }
}

/// Some job has the number `id`.
pub open spec fn has_job(js: Seq<JobV>, id: u32) -> bool {
    exists|k: int| 0 <= k < js.len() && (#[trigger] js[k]).id == id
}

/// The job a specification designates: `%n` names job `n`, and no
/// specification designates the highest numbered job (the highest numbered
/// stopped job when only stopped jobs qualify).
pub open spec fn resolve_spec(js: Seq<JobV>, spec: Option<Seq<char>>, stopped_only: bool) -> Result<u32, LookupErrV> {
    match spec {
        Some(s) => if s.len() > 0 && s[0] == '%' {
            match parse_u32_spec(s.drop_first()) {
                Some(id) => if has_job(js, id) {
                    Ok(id)
                } else {
                    Err(LookupErrV::UnknownJob(id))
                },
                None => Err(LookupErrV::InvalidJobSpec(s)),
            }
        } else {
            Err(LookupErrV::InvalidJobSpec(s))
        },
        None => match last_candidate(js, stopped_only) {
            Some(id) => Ok(id),
            None => Err(LookupErrV::NoCurrentJob),
        },
    }
}

/// Job numbers increase along the table, and stay below the next number to
/// hand out unless the numbers have run out.
pub open spec fn table_ok(js: Seq<JobV>, next: u32) -> bool {
    &&& forall|a: int, b: int| 0 <= a < b < js.len() ==> (#[trigger] js[a]).id < (#[trigger] js[b]).id
    &&& forall|a: int|
        0 <= a < js.len() ==> (#[trigger] js[a]).id <= next && (js[a].id == next ==> next
            == u32::MAX)
}

pub open spec fn jobs_view(js: Seq<Job>) -> Seq<JobV> {
    js.map_values(|j: Job| j@)
}

/// The jobs of a shell, in increasing job number. They are kept in a
/// vector ordered by number rather than a `BTreeMap`: the walks that update
/// jobs in place (`values_mut`, `get_mut`, `retain`) have no specification
/// in vstd.
pub struct JobTable {
    jobs: Vec<Job>,
    next_job_id: u32,
}

impl JobTable {
    /// The jobs, in increasing job number.
    pub closed spec fn jobs(&self) -> Seq<JobV> {
        jobs_view(self.jobs@)
    }

    /// The number the next job will get.
    pub closed spec fn next_id(&self) -> u32 {
        self.next_job_id
    }

    pub closed spec fn wf(&self) -> bool {
        table_ok(self.jobs(), self.next_job_id)
    }

    /// An empty table whose first job will be number 1.
    pub fn new() -> (t: JobTable)
        ensures
            t.wf(),
            t.jobs() == Seq::<JobV>::empty(),
            t.next_id() == 1,
    {
        let t = JobTable { jobs: Vec::new(), next_job_id: 1 };
        assert(t.jobs() =~= Seq::<JobV>::empty());
        t
    }

    /// Forgets every job.
    pub fn clear(&mut self)
        ensures
            final(self).wf(),
            final(self).jobs() == Seq::<JobV>::empty(),
            final(self).next_id() == old(self).next_id(),
    {
        self.jobs = Vec::new();
        assert(self.jobs() =~= Seq::<JobV>::empty());
    }

    fn index_of(&self, id: JobId) -> (r: Option<usize>)
        requires
            self.wf(),
        ensures
            match r {
                Some(k) => k < self.jobs().len() && self.jobs()[k as int].id == id.0,
                None => !has_job(self.jobs(), id.0),
            },
    {
        let mut i: usize = 0;
        while i < self.jobs.len()
            invariant
                i <= self.jobs@.len(),
                forall|k: int| 0 <= k < i ==> (#[trigger] self.jobs@[k]).id.0 != id.0,
            decreases self.jobs@.len() - i,
        {
            if self.jobs[i].id.0 == id.0 {
                return Some(i);
            }
            i = i + 1;
        }
        assert forall|k: int| 0 <= k < self.jobs().len() implies (#[trigger] self.jobs()[k]).id
            != id.0 by {
            assert(self.jobs()[k] == self.jobs@[k]@);
        }
        None
    }

    /// Publishes a started process group as a job and gives its number.
    /// Numbers count up from 1 and stop at `u32::MAX`, where a new job
    /// replaces the one with the same number.
    pub fn register_job(&mut self, pgid: i32, command_text: String, stages: Vec<JobStage>) -> (id: JobId)
        requires
            old(self).wf(),
        ensures
            final(self).wf(),
            id.0 == old(self).next_id(),
            final(self).next_id() == if old(self).next_id() < u32::MAX {
                (old(self).next_id() + 1) as u32
            } else {
                u32::MAX
            },
            ({
                let job = JobV {
                    id: id.0,
                    pgid,
                    text: command_text@,
                    stages: stages@.map_values(|s: JobStage| runtime_stage(s)),
                    state: job_state_of(stages@.map_values(|s: JobStage| runtime_stage(s))),
                    notified: false,
                };
                if has_job(old(self).jobs(), id.0) {
                    final(self).jobs() == old(self).jobs().update(old(self).jobs().len() - 1, job)
                } else {
                    final(self).jobs() == old(self).jobs().push(job)
                }
            }),
    {
        let id = JobId(self.next_job_id);
        self.next_job_id = self.next_job_id.saturating_add(1);
        let job = Job::new(id, pgid, command_text, stages);
        let ghost jv = job@;
        let ghost before = self.jobs();
        match self.index_of(id) {
            Some(k) => {
                proof {
                    if k + 1 < before.len() {
                        assert(before[k as int].id < before[before.len() - 1].id);
                    }
                }
                self.jobs.set(k, job);
                assert(self.jobs() =~= before.update(k as int, jv));
            },
            None => {
                self.jobs.push(job);
                assert(self.jobs() =~= before.push(jv));
            },
        }
        id
    }

    /// The index of the first job with a stage running process `pid`.
    pub closed spec fn first_job_with(js: Seq<JobV>, pid: i32) -> int {
        choose|t: int|
            0 <= t < js.len() && has_process((#[trigger] js[t]).stages, pid) && forall|u: int|
                0 <= u < t ==> !has_process((#[trigger] js[u]).stages, pid)
    }

    /// Routes a `waitpid` event to the first job with a stage running the
    /// process; events that change no state, or that are about a process of
    /// no job, leave the table unchanged.
    #[verifier::rlimit(40)]
    pub fn apply_wait_status(&mut self, status: WaitEvent)
        requires
            old(self).wf(),
        ensures
            final(self).wf(),
            final(self).next_id() == old(self).next_id(),
            ({
                let js = old(self).jobs();
                if event_pid(status) is Some && event_state(status) is Some && exists|t: int|
                    0 <= t < js.len() && has_process((#[trigger] js[t]).stages, event_pid(status)->0) {
                    let t = Self::first_job_with(js, event_pid(status)->0);
                    final(self).jobs() == js.update(t, job_after_event(js[t], status))
                } else {
                    final(self).jobs() == js
                }
            }),
    {
        let ghost js = self.jobs();
        let pid = match status.pid() {
            Some(pid) => pid,
            None => {
                return;
            },
        };
        let mut t: usize = 0;
        while t < self.jobs.len()
            invariant
                t <= self.jobs@.len(),
                self.jobs() == js,
                js == old(self).jobs(),
                self.next_job_id == old(self).next_job_id,
                table_ok(js, self.next_job_id),
                event_pid(status) == Some(pid),
                forall|u: int| 0 <= u < t ==> !has_process((#[trigger] js[u]).stages, pid),
            decreases self.jobs@.len() - t,
        {
            assert(js[t as int] == self.jobs@[t as int]@);
            if self.jobs[t].has_process(pid) {
                let mut job = self.jobs.remove(t);
                let taken = job.apply_wait_status(status);
                let ghost jv = job@;
                self.jobs.insert(t, job);
                proof {
                    assert(self.jobs() =~= js.update(t as int, jv));
                    lemma_first_job_with(js, pid, t as int);
                    lemma_table_update_ok(js, t as int, jv, self.next_job_id);
                }
                return;
            }
            t = t + 1;
        }
    }

    /// The notification lines for jobs that stopped or finished since they
    /// were last reported, in job order. Reported jobs are marked as such
    /// and reported finished jobs leave the table.
    pub fn take_notifications(&mut self) -> (lines: Vec<String>)
        requires
            old(self).wf(),
        ensures
            final(self).wf(),
            final(self).next_id() == old(self).next_id(),
            lines@.map_values(|l: String| l@) == notify_lines(old(self).jobs()),
            final(self).jobs() == after_notify(old(self).jobs()),
    {
        let ghost all = self.jobs();
        let mut rest: Vec<Job> = Vec::new();
        core::mem::swap(&mut rest, &mut self.jobs);
        let mut lines: Vec<String> = Vec::new();
        assert(lines@.map_values(|l: String| l@) =~= Seq::<Seq<char>>::empty());
        assert(self.jobs() =~= Seq::<JobV>::empty());
        while rest.len() > 0
            invariant
                lines@.map_values(|l: String| l@) + notify_lines(jobs_view(rest@)) == notify_lines(all),
                self.jobs() + after_notify(jobs_view(rest@)) == after_notify(all),
                self.next_job_id == old(self).next_job_id,
            decreases rest@.len(),
        {
            let ghost r = jobs_view(rest@);
            let mut job = rest.remove(0);
            assert(jobs_view(rest@) =~= r.drop_first());
            assert(job@ == r[0]);
            let ghost jv = job@;
            let ghost lines_before = lines@.map_values(|l: String| l@);
            let ghost kept_before = self.jobs();
            if !job.notified && (job.state == JobState::Stopped || job.state == JobState::Done) {
                let line = job.display_line();
                lines.push(line);
                assert(lines@.map_values(|l: String| l@) =~= lines_before.push(job_line(jv)));
                assert(lines@.map_values(|l: String| l@) + notify_lines(r.drop_first()) =~= lines_before
                    + notify_lines(r));
                job.notified = true;
                if job.state != JobState::Done {
                    self.jobs.push(job);
                    assert(self.jobs() =~= kept_before.push(JobV { notified: true, ..jv }));
                    assert(self.jobs() + after_notify(r.drop_first()) =~= kept_before + after_notify(r));
                } else {
                    assert(self.jobs() + after_notify(r.drop_first()) =~= kept_before + after_notify(r));
                }
            } else {
                self.jobs.push(job);
                assert(self.jobs() =~= kept_before.push(jv));
                assert(lines@.map_values(|l: String| l@) + notify_lines(r.drop_first()) =~= lines_before
                    + notify_lines(r));
                assert(self.jobs() + after_notify(r.drop_first()) =~= kept_before + after_notify(r));
            }
        }
        assert(jobs_view(rest@) =~= Seq::<JobV>::empty());
        assert(lines@.map_values(|l: String| l@) =~= notify_lines(all));
        assert(self.jobs() =~= after_notify(all));
        proof {
            lemma_after_notify_ok(all, self.next_job_id);
        }
        lines
    }

    /// The lines listing every job in job order; finished jobs then leave
    /// the table.
    pub fn list_jobs(&mut self) -> (lines: Vec<String>)
        requires
            old(self).wf(),
        ensures
            final(self).wf(),
            final(self).next_id() == old(self).next_id(),
            lines@.map_values(|l: String| l@) == old(self).jobs().map_values(|j: JobV| job_line(j)),
            final(self).jobs() == not_done(old(self).jobs()),
    {
        let ghost all = self.jobs();
        let mut rest: Vec<Job> = Vec::new();
        core::mem::swap(&mut rest, &mut self.jobs);
        let mut lines: Vec<String> = Vec::new();
        let ghost n = all.len();
        assert(self.jobs() =~= Seq::<JobV>::empty());
        assert(jobs_view(rest@) =~= all.skip(0));
        while rest.len() > 0
            invariant
                jobs_view(rest@) == all.skip(n - rest@.len()),
                rest@.len() <= n,
                n == all.len(),
                lines@.map_values(|l: String| l@) == all.take(n - rest@.len()).map_values(|j: JobV| job_line(j)),
                self.jobs() + not_done(jobs_view(rest@)) == not_done(all),
                self.next_job_id == old(self).next_job_id,
            decreases rest@.len(),
        {
            let ghost r = jobs_view(rest@);
            let ghost k = n - rest@.len();
            let job = rest.remove(0);
            assert(jobs_view(rest@) =~= r.drop_first());
            assert(r.drop_first() =~= all.skip(k + 1));
            assert(job@ == all[k]);
            let ghost jv = job@;
            let ghost lines_before = lines@.map_values(|l: String| l@);
            let ghost kept_before = self.jobs();
            let line = job.display_line();
            lines.push(line);
            assert(lines@.map_values(|l: String| l@) =~= lines_before.push(job_line(jv)));
            assert(all.take(k + 1).map_values(|j: JobV| job_line(j)) =~= all.take(k).map_values(
                |j: JobV| job_line(j),
            ).push(job_line(all[k])));
            if job.state != JobState::Done {
                self.jobs.push(job);
                assert(self.jobs() =~= kept_before.push(jv));
            }
            assert(self.jobs() + not_done(r.drop_first()) =~= kept_before + not_done(r));
        }
        assert(lines@.map_values(|l: String| l@) =~= all.map_values(|j: JobV| job_line(j)));
        assert(jobs_view(rest@) =~= Seq::<JobV>::empty());
        assert(self.jobs() =~= not_done(all));
        proof {
            lemma_not_done_ok(all, self.next_job_id);
        }
        lines
    }

    /// The job a specification designates; see [`resolve_spec`].
    pub fn resolve_job_id(&self, specification: Option<&str>, stopped_only: bool) -> (r: Result<JobId, JobLookupError>)
        requires
            self.wf(),
        ensures
            match (r, resolve_spec(self.jobs(), opt_str_view(specification), stopped_only)) {
                (Ok(id), Ok(v)) => id.0 == v,
                (Err(e), Err(ev)) => e@ == ev,
                _ => false,
            },
    {
        match specification {
            Some(specification) => {
                let cs = chars_of(specification);
                if cs.len() == 0 || cs[0] != '%' {
                    return Err(JobLookupError::InvalidJobSpec(specification.to_owned()));
                }
                let digits = crate::text::string_from_chars(&cs, 1);
                assert(cs@.skip(1) == cs@.drop_first());
                let id = match parse_u32(digits.as_str()) {
                    Some(n) => JobId(n),
                    None => {
                        return Err(JobLookupError::InvalidJobSpec(specification.to_owned()));
                    },
                };
                match self.index_of(id) {
                    Some(_) => Ok(id),
                    None => Err(JobLookupError::UnknownJob(id)),
                }
            },
            None => {
                let mut i = self.jobs.len();
                assert(self.jobs().take(self.jobs@.len() as int) =~= self.jobs());
                while i > 0
                    invariant
                        i <= self.jobs@.len(),
                        specification is None,
                        last_candidate(self.jobs(), stopped_only) == last_candidate(
                            self.jobs().take(i as int),
                            stopped_only,
                        ),
                    decreases i,
                {
                    let ghost t = self.jobs().take(i as int);
                    assert(t.last() == self.jobs@[i - 1]@);
                    assert(t.drop_last() =~= self.jobs().take(i - 1));
                    let job = &self.jobs[i - 1];
                    if !stopped_only || job.state == JobState::Stopped {
                        assert(default_candidate(t.last(), stopped_only));
                        assert(last_candidate(t, stopped_only) == Some(job.id.0));
                        return Ok(job.id);
                    }
                    i = i - 1;
                }
                assert(self.jobs().take(0) =~= Seq::<JobV>::empty());
                Err(JobLookupError::NoCurrentJob)
            },
        }
    }


    fn find(&self, id: JobId) -> (r: Option<usize>)
        requires
            self.wf(),
        ensures
            match r {
                Some(k) => k < self.jobs().len() && self.jobs()[k as int].id == id.0 && job_index(
                    self.jobs(),
                    id.0,
                ) == k,
                None => !has_job(self.jobs(), id.0),
            },
    {
        let r = self.index_of(id);
        proof {
            if let Some(k) = r {
                lemma_job_index(self.jobs(), self.next_job_id, k as int);
            }
        }
        r
    }

    /// The job `bg` continues: the designated job (by default the highest
    /// numbered stopped job), with its process group; it must be stopped.
    pub fn background_target(&self, specification: Option<&str>) -> (r: Result<(JobId, i32), JobLookupError>)
        requires
            self.wf(),
        ensures
            match resolve_spec(self.jobs(), opt_str_view(specification), true) {
                Err(ev) => r matches Err(e) && e@ == ev,
                Ok(id) => {
                    let j = self.jobs()[job_index(self.jobs(), id)];
                    if j.state == JobState::Stopped {
                        r == Ok::<(JobId, i32), JobLookupError>((JobId(id), j.pgid))
                    } else {
                        r matches Err(e) && e@ == LookupErrV::JobNotStopped(id)
                    }
                },
            },
    {
        let id = self.resolve_job_id(specification, true)?;
        proof {
            lemma_resolve_has_job(self.jobs(), opt_str_view(specification), true);
        }
        match self.find(id) {
            Some(k) => {
                let job = &self.jobs[k];
                if job.state != JobState::Stopped {
                    return Err(JobLookupError::JobNotStopped(id));
                }
                Ok((id, job.pgid))
            },
            None => Err(JobLookupError::UnknownJob(id)),
        }
    }

    /// The job `fg` brings to the foreground: the designated job (by default
    /// the highest numbered job), its process group, and whether it is
    /// stopped and so needs `SIGCONT`.
    pub fn foreground_target(&self, specification: Option<&str>) -> (r: Result<(JobId, i32, bool), JobLookupError>)
        requires
            self.wf(),
        ensures
            match resolve_spec(self.jobs(), opt_str_view(specification), false) {
                Err(ev) => r matches Err(e) && e@ == ev,
                Ok(id) => {
                    let j = self.jobs()[job_index(self.jobs(), id)];
                    r == Ok::<(JobId, i32, bool), JobLookupError>(
                        (JobId(id), j.pgid, j.state == JobState::Stopped),
                    )
                },
            },
    {
        let id = self.resolve_job_id(specification, false)?;
        proof {
            lemma_resolve_has_job(self.jobs(), opt_str_view(specification), false);
        }
        match self.find(id) {
            Some(k) => {
                let job = &self.jobs[k];
                Ok((id, job.pgid, job.state == JobState::Stopped))
            },
            None => Err(JobLookupError::UnknownJob(id)),
        }
    }

    /// Marks a job as running after `SIGCONT` was sent to it and gives its
    /// listing line; nothing for an unknown job.
    pub fn mark_job_running(&mut self, id: JobId) -> (r: Option<String>)
        requires
            old(self).wf(),
        ensures
            final(self).wf(),
            final(self).next_id() == old(self).next_id(),
            has_job(old(self).jobs(), id.0) ==> {
                let k = job_index(old(self).jobs(), id.0);
                let j = old(self).jobs()[k];
                let nj = JobV {
                    stages: j.stages.map_values(|s: RuntimeStage| resumed(s)),
                    state: JobState::Running,
                    notified: false,
                    ..j
                };
                &&& final(self).jobs() == old(self).jobs().update(k, nj)
                &&& r matches Some(line) && line@ == job_line(nj)
            },
            !has_job(old(self).jobs(), id.0) ==> final(self).jobs() == old(self).jobs() && r is None,
    {
        let ghost js = self.jobs();
        match self.find(id) {
            Some(k) => {
                let mut job = self.jobs.remove(k);
                job.mark_running();
                let line = job.display_line();
                let ghost jv = job@;
                self.jobs.insert(k, job);
                proof {
                    assert(self.jobs() =~= js.update(k as int, jv));
                    lemma_table_update_ok(js, k as int, jv, self.next_job_id);
                }
                Some(line)
            },
            None => None,
        }
    }

    /// The process group and state of a job.
    pub fn job_status(&self, id: JobId) -> (r: Option<(i32, JobState)>)
        requires
            self.wf(),
        ensures
            has_job(self.jobs(), id.0) ==> r == Some(
                (
                    self.jobs()[job_index(self.jobs(), id.0)].pgid,
                    self.jobs()[job_index(self.jobs(), id.0)].state,
                ),
            ),
            !has_job(self.jobs(), id.0) ==> r is None,
    {
        match self.find(id) {
            Some(k) => Some((self.jobs[k].pgid, self.jobs[k].state)),
            None => None,
        }
    }

    /// Once a foreground job has stopped or finished: its status, which is
    /// that of its last stage; a finished job leaves the table.
    pub fn finish_foreground(&mut self, id: JobId) -> (r: Result<i32, JobLookupError>)
        requires
            old(self).wf(),
        ensures
            final(self).wf(),
            final(self).next_id() == old(self).next_id(),
            has_job(old(self).jobs(), id.0) ==> {
                let k = job_index(old(self).jobs(), id.0);
                let j = old(self).jobs()[k];
                &&& r == Ok::<i32, JobLookupError>(status_of(j.stages))
                &&& final(self).jobs() == if j.state == JobState::Done {
                    old(self).jobs().remove(k)
                } else {
                    old(self).jobs()
                }
            },
            !has_job(old(self).jobs(), id.0) ==> final(self).jobs() == old(self).jobs() && (r
                matches Err(e) && e@ == LookupErrV::UnknownJob(id.0)),
    {
        let ghost js = self.jobs();
        match self.find(id) {
            Some(k) => {
                let status = self.jobs[k].status_code();
                if self.jobs[k].state == JobState::Done {
                    let _ = self.jobs.remove(k);
                    proof {
                        assert(self.jobs() =~= js.remove(k as int));
                        assert forall|a: int, b: int| 0 <= a < b < self.jobs().len() implies (
                        #[trigger] self.jobs()[a]).id < (#[trigger] self.jobs()[b]).id by {
                            let a0 = if a < k { a } else { a + 1 };
                            let b0 = if b < k { b } else { b + 1 };
                            assert(self.jobs()[a] == js[a0] && self.jobs()[b] == js[b0]);
                        }
                        assert forall|a: int| 0 <= a < self.jobs().len() implies (
                        #[trigger] self.jobs()[a]).id <= self.next_job_id && (self.jobs()[a].id
                            == self.next_job_id ==> self.next_job_id == u32::MAX) by {
                            let a0 = if a < k { a } else { a + 1 };
                            assert(self.jobs()[a] == js[a0]);
                        }
                    }
                }
                Ok(status)
            },
            None => Err(JobLookupError::UnknownJob(id)),
        }
    }

    /// The process groups and states of the jobs that are not done, in job
    /// order.
    pub fn active_jobs(&self) -> (r: Vec<(i32, JobState)>)
        requires
            self.wf(),
        ensures
            r@ == not_done(self.jobs()).map_values(|j: JobV| (j.pgid, j.state)),
    {
        let mut r: Vec<(i32, JobState)> = Vec::new();
        let mut i: usize = 0;
        let ghost js = self.jobs();
        assert(js.skip(0) == js);
        assert(r@ =~= Seq::<(i32, JobState)>::empty());
        while i < self.jobs.len()
            invariant
                i <= self.jobs@.len(),
                js == self.jobs(),
                r@ + not_done(js.skip(i as int)).map_values(|j: JobV| (j.pgid, j.state)) == not_done(
                    js,
                ).map_values(|j: JobV| (j.pgid, j.state)),
            decreases self.jobs@.len() - i,
        {
            let ghost rest = js.skip(i as int);
            assert(rest[0] == self.jobs@[i as int]@);
            assert(rest.drop_first() == js.skip(i + 1));
            let ghost before = r@;
            if self.jobs[i].state != JobState::Done {
                r.push((self.jobs[i].pgid, self.jobs[i].state));
                assert(not_done(rest) == seq![rest[0]] + not_done(rest.drop_first()));
                assert(not_done(rest).map_values(|j: JobV| (j.pgid, j.state)) =~= seq![(rest[0].pgid, rest[0].state)] + not_done(rest.drop_first()).map_values(|j: JobV| (j.pgid, j.state)));
                assert(r@ =~= before.push((rest[0].pgid, rest[0].state)));
            } else {
                assert(not_done(rest) =~= not_done(rest.drop_first()));
            }
            i = i + 1;
        }
        assert(js.skip(i as int) =~= Seq::<JobV>::empty());
        assert(not_done(js.skip(i as int)) =~= Seq::<JobV>::empty());
        r
    }

    /// The process groups of all jobs, in job order.
    pub fn process_groups(&self) -> (r: Vec<i32>)
        ensures
            r@ == self.jobs().map_values(|j: JobV| j.pgid),
    {
        let mut r: Vec<i32> = Vec::new();
        let mut i: usize = 0;
        while i < self.jobs.len()
            invariant
                i <= self.jobs@.len(),
                r@ == self.jobs().take(i as int).map_values(|j: JobV| j.pgid),
            decreases self.jobs@.len() - i,
        {
            r.push(self.jobs[i].pgid);
            assert(self.jobs().take(i + 1).map_values(|j: JobV| j.pgid) =~= self.jobs().take(
                i as int,
            ).map_values(|j: JobV| j.pgid).push(self.jobs@[i as int].pgid));
            i = i + 1;
        }
        assert(self.jobs().take(i as int) =~= self.jobs());
        r
    }
}

/// The index of the job numbered `id`.
pub open spec fn job_index(js: Seq<JobV>, id: u32) -> int {
    choose|k: int| 0 <= k < js.len() && (#[trigger] js[k]).id == id
}

/// The job a specification designates exists.
pub proof fn lemma_resolve_has_job(js: Seq<JobV>, spec: Option<Seq<char>>, stopped_only: bool)
    ensures
        resolve_spec(js, spec, stopped_only) matches Ok(id) ==> has_job(js, id),
{
    lemma_last_candidate_has_job(js, stopped_only);
}

pub proof fn lemma_last_candidate_has_job(js: Seq<JobV>, stopped_only: bool)
    ensures
        last_candidate(js, stopped_only) matches Some(id) ==> has_job(js, id),
    decreases js.len(),
{
    if js.len() > 0 {
        if default_candidate(js.last(), stopped_only) {
            assert(js[js.len() - 1].id == js.last().id);
        } else {
            lemma_last_candidate_has_job(js.drop_last(), stopped_only);
            if let Some(id) = last_candidate(js.drop_last(), stopped_only) {
                let k = choose|k: int| 0 <= k < js.drop_last().len() && (#[trigger] js.drop_last()[k]).id == id;
                assert(js[k] == js.drop_last()[k]);
            }
        }
    }
}

/// In an ordered table the job with a given number is unique.
pub proof fn lemma_job_index(js: Seq<JobV>, next: u32, k: int)
    requires
        table_ok(js, next),
        0 <= k < js.len(),
    ensures
        job_index(js, js[k].id) == k,
{
    let c = job_index(js, js[k].id);
    assert(0 <= c < js.len() && js[c].id == js[k].id);
    if c < k {
        assert(js[c].id < js[k].id);
    }
    if c > k {
        assert(js[k].id < js[c].id);
    }
}

// ---------------------------------------------------------------------------
// Process groups
// ---------------------------------------------------------------------------

/// How the shell runs jobs.
#[derive(Debug, Clone, Copy, PartialEq, Eq, Structural)]
pub enum JobControlMode {
    /// No terminal: children stay in the shell's process group.
    NonInteractive,
    /// On a terminal: every job gets a process group of its own.
    Interactive,
    /// A background subshell: children join the subshell's group.
    Subshell(i32),
}

/// The process group a new child is to join: none outside job control; in
/// an interactive shell the group of the job being started, or 0 (a group
/// of its own) for its first process; in a subshell the subshell's group.
pub fn child_group_target(mode: JobControlMode, current_job_pgid: Option<i32>) -> (r: Option<i32>)
    ensures
        r == match mode {
            JobControlMode::Interactive => Some(
                match current_job_pgid {
                    Some(p) => p,
                    None => 0i32,
                },
            ),
            JobControlMode::Subshell(p) => Some(p),
            JobControlMode::NonInteractive => None::<i32>,
        },
{
    match mode {
        JobControlMode::Interactive => Some(
            match current_job_pgid {
                Some(p) => p,
                None => 0,
            },
        ),
        JobControlMode::Subshell(p) => Some(p),
        JobControlMode::NonInteractive => None,
    }
}

/// The process group a child ends up in: its own (its pid) when no group
/// or group 0 was asked for, else the group asked for.
pub fn actual_process_group(child: i32, target: Option<i32>) -> (g: i32)
    ensures
        g == match target {
            Some(t) => if t == 0 {
                child
            } else {
                t
            },
            None => child,
        },
{
    match target {
        Some(t) => if t == 0 {
            child
        } else {
            t
        },
        None => child,
    }
}

/// The first started process of a pipeline, which leads its process group.
pub open spec fn first_process(stages: Seq<JobStage>) -> Option<i32>
    decreases stages.len(),
{
    if stages.len() == 0 {
        None
    } else {
        match stages[0] {
            JobStage::Process(pid) => Some(pid),
            JobStage::Completed(_) => first_process(stages.drop_first()),
        }
    }
}

/// The first started process of a pipeline; see [`first_process`].
pub fn pipeline_leader(stages: &Vec<JobStage>) -> (r: Option<i32>)
    ensures
        r == first_process(stages@),
{
    let mut i: usize = 0;
    assert(stages@.skip(0) =~= stages@);
    while i < stages.len()
        invariant
            i <= stages@.len(),
            first_process(stages@) == first_process(stages@.skip(i as int)),
        decreases stages@.len() - i,
    {
        assert(stages@.skip(i as int).drop_first() =~= stages@.skip(i + 1));
        match stages[i] {
            JobStage::Process(pid) => {
                return Some(pid);
            },
            JobStage::Completed(_) => {},
        }
        i = i + 1;
    }
    None
}

/// The processes among the stages of a pipeline, in order.
pub open spec fn stage_pids(stages: Seq<JobStage>) -> Seq<i32>
    decreases stages.len(),
{
    if stages.len() == 0 {
        seq![]
    } else {
        stage_pids(stages.drop_last()) + match stages.last() {
            JobStage::Process(pid) => seq![pid],
            JobStage::Completed(_) => seq![],
        }
    }
}

/// The processes among the stages of a pipeline; see [`stage_pids`].
pub fn stage_processes(stages: &Vec<JobStage>) -> (r: Vec<i32>)
    ensures
        r@ == stage_pids(stages@),
{
    let mut r: Vec<i32> = Vec::new();
    let mut i: usize = 0;
    while i < stages.len()
        invariant
            i <= stages@.len(),
            r@ == stage_pids(stages@.take(i as int)),
        decreases stages@.len() - i,
    {
        assert(stages@.take(i + 1).drop_last() =~= stages@.take(i as int));
        match stages[i] {
            JobStage::Process(pid) => {
                r.push(pid);
            },
            JobStage::Completed(_) => {},
        }
        assert(r@ =~= stage_pids(stages@.take(i + 1)));
        i = i + 1;
    }
    assert(stages@.take(i as int) =~= stages@);
    r
}

/// What to signal to stop a pipeline that failed to start: its process
/// group when its processes really share one, else each of its processes.
#[derive(Debug, PartialEq, Eq)]
pub enum SignalTarget {
    Group(i32),
    Processes(Vec<i32>),
}

/// The process group a pipeline's processes share once its first process
/// `first_pid` has started: none outside job control, where children stay
/// in the shell's group; otherwise the group that first process joined.
pub fn pipeline_group(mode: JobControlMode, first_pid: i32) -> (g: Option<i32>)
    ensures
        g == match mode {
            JobControlMode::NonInteractive => None::<i32>,
            JobControlMode::Interactive => Some(first_pid),
            JobControlMode::Subshell(p) => Some(if p == 0 {
                first_pid
            } else {
                p
            }),
        },
{
    match mode {
        JobControlMode::NonInteractive => None,
        _ => Some(actual_process_group(first_pid, child_group_target(mode, None))),
    }
}

/// The target that stops the started stages of a pipeline: its group
/// `pgid` when job control put its processes in one, else each of its
/// processes, as no group of their own exists outside job control.
pub fn termination_target(mode: JobControlMode, stages: &Vec<JobStage>, pgid: Option<i32>) -> (t: SignalTarget)
    ensures
        match (mode, pgid) {
            (JobControlMode::NonInteractive, _) | (_, None) => t matches SignalTarget::Processes(pids)
                && pids@ == stage_pids(stages@),
            (_, Some(g)) => t == SignalTarget::Group(g),
        },
{
    match (mode, pgid) {
        (JobControlMode::NonInteractive, _) | (_, None) => SignalTarget::Processes(stage_processes(stages)),
        (_, Some(g)) => SignalTarget::Group(g),
    }
}

/// How waiting for one stage of a pipeline went.
#[derive(Debug, Clone, Copy, PartialEq, Eq, Structural)]
pub enum StageOutcome {
    /// The stage ended with this status.
    Status(i32),
    /// Waiting failed with this error number.
    WaitFailed(i32),
}

/// The first failure among the outcomes.
pub open spec fn first_failure(os: Seq<StageOutcome>) -> Option<i32>
    decreases os.len(),
{
    if os.len() == 0 {
        None
    } else {
        match os[0] {
            StageOutcome::WaitFailed(e) => Some(e),
            StageOutcome::Status(_) => first_failure(os.drop_first()),
        }
    }
}

/// The status of the last stage that ended, 0 if none did.
pub open spec fn last_status(os: Seq<StageOutcome>) -> i32
    decreases os.len(),
{
    if os.len() == 0 {
        0
    } else {
        match os.last() {
            StageOutcome::Status(s) => s,
            StageOutcome::WaitFailed(_) => last_status(os.drop_last()),
        }
    }
}

/// The outcome of a pipeline waited for stage by stage: the first waiting
/// failure if there was one, else the status of the last stage.
pub fn pipeline_result(outcomes: &Vec<StageOutcome>) -> (r: Result<i32, i32>)
    ensures
        match first_failure(outcomes@) {
            Some(e) => r == Err::<i32, i32>(e),
            None => r == Ok::<i32, i32>(last_status(outcomes@)),
        },
{
    let mut last: i32 = 0;
    let mut failure: Option<i32> = None;
    let mut i: usize = 0;
    while i < outcomes.len()
        invariant
            i <= outcomes@.len(),
            last == last_status(outcomes@.take(i as int)),
            failure == first_failure(outcomes@.take(i as int)),
        decreases outcomes@.len() - i,
    {
        let ghost t = outcomes@.take(i + 1);
        assert(t.drop_last() == outcomes@.take(i as int));
        proof {
            lemma_first_failure_push(outcomes@.take(i as int), outcomes@[i as int]);
            assert(t == outcomes@.take(i as int).push(outcomes@[i as int]));
        }
        match outcomes[i] {
            StageOutcome::Status(s) => {
                last = s;
            },
            StageOutcome::WaitFailed(e) => {
                if failure.is_none() {
                    failure = Some(e);
                }
            },
        }
        i = i + 1;
    }
    assert(outcomes@.take(i as int) == outcomes@);
    match failure {
        Some(e) => Err(e),
        None => Ok(last),
    }
}

pub proof fn lemma_first_failure_push(os: Seq<StageOutcome>, o: StageOutcome)
    ensures
        first_failure(os.push(o)) == match first_failure(os) {
            Some(e) => Some(e),
            None => match o {
                StageOutcome::WaitFailed(e) => Some(e),
                StageOutcome::Status(_) => None,
            },
        },
    decreases os.len(),
{
    assert(os.push(o)[0] == if os.len() > 0 { os[0] } else { o });
    if os.len() > 0 {
        assert(os.push(o).drop_first() == os.drop_first().push(o));
        lemma_first_failure_push(os.drop_first(), o);
    } else {
        assert(os.push(o).drop_first() =~= Seq::<StageOutcome>::empty());
        assert(first_failure(os.push(o).drop_first()) is None);
    }
}


/// The first job with a given process is unique.
pub proof fn lemma_first_job_with(js: Seq<JobV>, pid: i32, t: int)
    requires
        0 <= t < js.len(),
        has_process(js[t].stages, pid),
        forall|u: int| 0 <= u < t ==> !has_process((#[trigger] js[u]).stages, pid),
    ensures
        JobTable::first_job_with(js, pid) == t,
{
    let c = JobTable::first_job_with(js, pid);
    assert(0 <= c < js.len() && has_process(js[c].stages, pid) && forall|u: int|
        0 <= u < c ==> !has_process((#[trigger] js[u]).stages, pid));
    if c < t {
        assert(!has_process(js[c].stages, pid));
    }
    if c > t {
        assert(!has_process(js[t].stages, pid));
    }
}

/// Replacing a job by one with the same number keeps the table ordered.
pub proof fn lemma_table_update_ok(js: Seq<JobV>, t: int, x: JobV, next: u32)
    requires
        0 <= t < js.len(),
        table_ok(js, next),
        x.id == js[t].id,
    ensures
        table_ok(js.update(t, x), next),
{
    let u = js.update(t, x);
    assert forall|a: int| 0 <= a < u.len() implies (#[trigger] u[a]).id == js[a].id by {}
    assert forall|a: int, b: int| 0 <= a < b < u.len() implies (#[trigger] u[a]).id < (
    #[trigger] u[b]).id by {
        assert(u[a].id == js[a].id && u[b].id == js[b].id);
    }

}

pub open spec fn opt_str_view(s: Option<&str>) -> Option<Seq<char>> {
    match s {
        Some(s) => Some(s@),
        None => None,
    }
}

/// Notifying keeps the table ordered.
pub proof fn lemma_after_notify_ok(js: Seq<JobV>, next: u32)
    requires
        table_ok(js, next),
    ensures
        table_ok(after_notify(js), next),
        forall|k: int| 0 <= k < after_notify(js).len() ==> has_job(js, (#[trigger] after_notify(js)[k]).id),
    decreases js.len(),
{
    if js.len() > 0 {
        let rest = js.drop_first();
        assert forall|a: int, b: int| 0 <= a < b < rest.len() implies (#[trigger] rest[a]).id < (
        #[trigger] rest[b]).id by {
            assert(rest[a] == js[a + 1] && rest[b] == js[b + 1]);
        }
        assert forall|a: int| 0 <= a < rest.len() implies (#[trigger] rest[a]).id <= next && (
        rest[a].id == next ==> next == u32::MAX) by {
            assert(rest[a] == js[a + 1]);
        }
        lemma_after_notify_ok(rest, next);
        let r = after_notify(rest);
        assert forall|k: int| 0 <= k < r.len() implies (#[trigger] r[k]).id > js[0].id && has_job(
            js,
            r[k].id,
        ) by {
            let m = choose|m: int| 0 <= m < rest.len() && (#[trigger] rest[m]).id == r[k].id;
            assert(js[m + 1] == rest[m]);
        }
        let x = JobV { notified: true, ..js[0] };
        if reportable(js[0]) && js[0].state != JobState::Done {
            let out = seq![x] + r;
            assert(after_notify(js) == out);
            assert forall|k: int| 0 <= k < out.len() implies has_job(js, (#[trigger] out[k]).id) by {
                if k > 0 {
                    assert(out[k] == r[k - 1]);
                }
            }
            assert forall|a: int, b: int| 0 <= a < b < out.len() implies (#[trigger] out[a]).id < (
            #[trigger] out[b]).id by {
                assert(out[b] == r[b - 1]);
                if a > 0 {
                    assert(out[a] == r[a - 1]);
                }
            }
            assert forall|a: int| 0 <= a < out.len() implies (#[trigger] out[a]).id <= next && (
            out[a].id == next ==> next == u32::MAX) by {
                if a > 0 {
                    assert(out[a] == r[a - 1]);
                }
            }
        } else if !reportable(js[0]) {
            let out = seq![js[0]] + r;
            assert(after_notify(js) == out);
            assert forall|k: int| 0 <= k < out.len() implies has_job(js, (#[trigger] out[k]).id) by {
                if k > 0 {
                    assert(out[k] == r[k - 1]);
                }
            }
            assert forall|a: int, b: int| 0 <= a < b < out.len() implies (#[trigger] out[a]).id < (
            #[trigger] out[b]).id by {
                assert(out[b] == r[b - 1]);
                if a > 0 {
                    assert(out[a] == r[a - 1]);
                }
            }
            assert forall|a: int| 0 <= a < out.len() implies (#[trigger] out[a]).id <= next && (
            out[a].id == next ==> next == u32::MAX) by {
                if a > 0 {
                    assert(out[a] == r[a - 1]);
                }
            }
        } else {
            assert(after_notify(js) == r);
        }
    }
}

/// Dropping finished jobs keeps the table ordered.
pub proof fn lemma_not_done_ok(js: Seq<JobV>, next: u32)
    requires
        table_ok(js, next),
    ensures
        table_ok(not_done(js), next),
        forall|k: int| 0 <= k < not_done(js).len() ==> has_job(js, (#[trigger] not_done(js)[k]).id),
    decreases js.len(),
{
    if js.len() > 0 {
        let rest = js.drop_first();
        assert forall|a: int, b: int| 0 <= a < b < rest.len() implies (#[trigger] rest[a]).id < (
        #[trigger] rest[b]).id by {
            assert(rest[a] == js[a + 1] && rest[b] == js[b + 1]);
        }
        assert forall|a: int| 0 <= a < rest.len() implies (#[trigger] rest[a]).id <= next && (
        rest[a].id == next ==> next == u32::MAX) by {
            assert(rest[a] == js[a + 1]);
        }
        lemma_not_done_ok(rest, next);
        let r = not_done(rest);
        assert forall|k: int| 0 <= k < r.len() implies (#[trigger] r[k]).id > js[0].id && has_job(
            js,
            r[k].id,
        ) by {
            let m = choose|m: int| 0 <= m < rest.len() && (#[trigger] rest[m]).id == r[k].id;
            assert(js[m + 1] == rest[m]);
        }
        if js[0].state != JobState::Done {
            let out = seq![js[0]] + r;
            assert(not_done(js) == out);
            assert forall|k: int| 0 <= k < out.len() implies has_job(js, (#[trigger] out[k]).id) by {
                if k > 0 {
                    assert(out[k] == r[k - 1]);
                }
            }
            assert forall|a: int, b: int| 0 <= a < b < out.len() implies (#[trigger] out[a]).id < (
            #[trigger] out[b]).id by {
                assert(out[b] == r[b - 1]);
                if a > 0 {
                    assert(out[a] == r[a - 1]);
                }
            }
            assert forall|a: int| 0 <= a < out.len() implies (#[trigger] out[a]).id <= next && (
            out[a].id == next ==> next == u32::MAX) by {
                if a > 0 {
                    assert(out[a] == r[a - 1]);
                }
            }
        } else {
            assert(not_done(js) == seq![] + r);
            assert(seq![] + r =~= r);
        }
    }
}

} // verus!
