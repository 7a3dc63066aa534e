use std::collections::VecDeque;
use vstd::prelude::*;

use crate::text::{chars_of, string_of, trim_chars, trimmed};

verus! {

/// The most log lines the interface keeps.
pub const LOG_CAPACITY: usize = 500;

/// What the matching engine reports while a job runs. A progress snapshot
/// carries its figures separately; here it only marks that one arrived.
pub enum JobEvent {
    Snapshot,
    Log(String),
    Finished,
    Failed(String),
}

/// What the interface knows of the current job: its recent log lines, its
/// id, whether it runs and is paused, the last notice and error, and
/// whether the engine can still be told to pause or stop.
pub struct JobStatus {
    pub logs: VecDeque<String>,
    pub active_job_id: String,
    pub running: bool,
    pub paused: bool,
    pub notice: String,
    pub error: String,
    pub controllable: bool,
}

/// The notice shown once a job has finished.
pub open spec fn finished_notice() -> Seq<char> {
    "Processing completed and reconciled successfully."@
}

/// The error given when a job is started while another runs.
pub open spec fn already_running_error() -> Seq<char> {
    "A job is already running. Stop it or wait for completion before starting another job."@
}

/// The error given when a job is paused or stopped and none runs.
pub open spec fn no_job_error() -> Seq<char> {
    "No job is currently running"@
}

impl JobStatus {
    /// The status's invariant: at most `LOG_CAPACITY` log lines are kept.
    pub open spec fn wf(&self) -> bool {
        self.logs@.len() <= LOG_CAPACITY
    }

    /// No job, no lines, no notice, no error.
    pub fn new() -> (r: JobStatus)
        ensures
            r.wf(),
            r.logs@.len() == 0,
            r.active_job_id@ == Seq::<char>::empty(),
            !r.running,
            !r.paused,
            r.notice@ == Seq::<char>::empty(),
            r.error@ == Seq::<char>::empty(),
            !r.controllable,
    {
        JobStatus {
            logs: VecDeque::new(),
            active_job_id: String::new(),
            running: false,
            paused: false,
            notice: String::new(),
            error: String::new(),
            controllable: false,
        }
    }

    /// Takes in one engine event; the result says whether the job is over,
    /// so that no more events are read.
    ///
    /// A log line is kept, the oldest dropped when `LOG_CAPACITY` lines are
    /// already kept. A finished job leaves nothing running, paused or
    /// controllable and gives the finished notice; a failed one does the
    /// same and records the failure as the error.
    pub fn apply(&mut self, event: JobEvent) -> (over: bool)
        requires
            old(self).wf(),
        ensures
            final(self).wf(),
            over == (event is Finished || event is Failed),
            event is Snapshot ==> *final(self) == *old(self),
            event matches JobEvent::Log(line) ==> {
                &&& final(self).logs@ == if old(self).logs@.len() >= LOG_CAPACITY {
                    old(self).logs@.subrange(1, old(self).logs@.len() as int).push(line)
                } else {
                    old(self).logs@.push(line)
                }
                &&& final(self).running == old(self).running
                &&& final(self).paused == old(self).paused
                &&& final(self).controllable == old(self).controllable
                &&& final(self).notice == old(self).notice
                &&& final(self).error == old(self).error
                &&& final(self).active_job_id == old(self).active_job_id
            },
            event is Finished ==> {
                &&& !final(self).running
                &&& !final(self).paused
                &&& !final(self).controllable
                &&& final(self).notice@ == finished_notice()
                &&& final(self).error == old(self).error
                &&& final(self).logs == old(self).logs
                &&& final(self).active_job_id == old(self).active_job_id
            },
            event matches JobEvent::Failed(msg) ==> {
                &&& !final(self).running
                &&& !final(self).paused
                &&& !final(self).controllable
                &&& final(self).error == msg
                &&& final(self).notice == old(self).notice
                &&& final(self).logs == old(self).logs
                &&& final(self).active_job_id == old(self).active_job_id
            },
    {
        match event {
            JobEvent::Snapshot => false,
            JobEvent::Log(line) => {
                if self.logs.len() >= LOG_CAPACITY {
                    self.logs.pop_front();
                }
                self.logs.push_back(line);
                false
            },
            JobEvent::Finished => {
                self.running = false;
                self.paused = false;
                self.controllable = false;
                self.notice = String::from_str("Processing completed and reconciled successfully.");
                true
            },
            JobEvent::Failed(message) => {
                self.running = false;
                self.paused = false;
                self.controllable = false;
                self.error = message;
                true
            },
        }
    }

    /// Refuses a new job while one runs.
    pub fn check_can_start(&self) -> (r: Result<(), String>)
        ensures
            r is Ok <==> !self.running,
            r matches Err(e) ==> e@ == already_running_error(),
    {
        if self.running {
            Err(
                String::from_str(
                    "A job is already running. Stop it or wait for completion before starting another job.",
                ),
            )
        } else {
            Ok(())
        }
    }

    /// Records that job `job_id` was started (or resumed): it runs, is not
    /// paused and can be controlled; the error and the log are cleared.
    pub fn job_started(&mut self, job_id: String, resume: bool)
        ensures
            final(self).wf(),
            final(self).active_job_id == job_id,
            final(self).running,
            !final(self).paused,
            final(self).controllable,
            final(self).error@ == Seq::<char>::empty(),
            final(self).notice@ == if resume {
                "Resume requested."@
            } else {
                "Processing started."@
            },
            final(self).logs@.len() == 0,
    {
        self.active_job_id = job_id;
        self.running = true;
        self.paused = false;
        self.controllable = true;
        self.error = String::new();
        self.notice = if resume {
            String::from_str("Resume requested.")
        } else {
            String::from_str("Processing started.")
        };
        self.logs.clear();
    }

    /// Asks the running job to pause or to go on; refused when no job can
    /// be controlled.
    pub fn request_pause(&mut self, paused: bool) -> (r: Result<(), String>)
        requires
            old(self).wf(),
        ensures
            final(self).wf(),
            r is Ok <==> old(self).controllable,
            r matches Err(e) ==> e@ == no_job_error() && *final(self) == *old(self),
            r is Ok ==> {
                &&& final(self).paused == paused
                &&& final(self).notice@ == if paused {
                    "Pause requested. The engine will pause at a safe checkpoint."@
                } else {
                    "Resume requested."@
                }
                &&& final(self).running == old(self).running
                &&& final(self).controllable == old(self).controllable
                &&& final(self).error == old(self).error
                &&& final(self).logs == old(self).logs
                &&& final(self).active_job_id == old(self).active_job_id
            },
    {
        if !self.controllable {
            return Err(String::from_str("No job is currently running"));
        }
        self.paused = paused;
        self.notice = if paused {
            String::from_str("Pause requested. The engine will pause at a safe checkpoint.")
        } else {
            String::from_str("Resume requested.")
        };
        Ok(())
    }

    /// Asks the running job to stop; refused when no job can be controlled.
    pub fn request_stop(&mut self) -> (r: Result<(), String>)
        requires
            old(self).wf(),
        ensures
            final(self).wf(),
            r is Ok <==> old(self).controllable,
            r matches Err(e) ==> e@ == no_job_error() && *final(self) == *old(self),
            r is Ok ==> {
                &&& final(self).notice@
                    == "Stop requested. The engine will stop at a safe checkpoint."@
                &&& final(self).running == old(self).running
                &&& final(self).paused == old(self).paused
                &&& final(self).controllable == old(self).controllable
                &&& final(self).error == old(self).error
                &&& final(self).logs == old(self).logs
                &&& final(self).active_job_id == old(self).active_job_id
            },
    {
        if !self.controllable {
            return Err(String::from_str("No job is currently running"));
        }
        self.notice = String::from_str("Stop requested. The engine will stop at a safe checkpoint.");
        Ok(())
    }

    /// Records that the configuration was saved.
    pub fn config_saved(&mut self)
        requires
            old(self).wf(),
        ensures
            final(self).wf(),
            final(self).notice@ == "Configuration saved locally."@,
            final(self).error@ == Seq::<char>::empty(),
            final(self).running == old(self).running,
            final(self).paused == old(self).paused,
            final(self).controllable == old(self).controllable,
            final(self).logs == old(self).logs,
            final(self).active_job_id == old(self).active_job_id,
    {
        self.notice = String::from_str("Configuration saved locally.");
        self.error = String::new();
    }
}

/// The job to resume: the trimmed id when resuming and it is not blank.
pub open spec fn resume_id_of(resume: bool, job_id: Seq<char>) -> Option<Seq<char>> {
    if resume && trimmed(job_id).len() > 0 {
        Some(trimmed(job_id))
    } else {
        None
    }
}

/// The job to resume (see `resume_id_of`).
pub fn resume_job_id(resume: bool, job_id: &str) -> (r: Option<String>)
    ensures
        match r {
            Some(id) => resume_id_of(resume, job_id@) == Some(id@),
            None => resume_id_of(resume, job_id@) is None,
        },
{
    if !resume {
        return None;
    }
    let chars = chars_of(job_id);
    let t = trim_chars(chars.as_slice());
    if t.len() == 0 {
        None
    } else {
        Some(string_of(t.as_slice()))
    }
}

/// The log never holds more than `LOG_CAPACITY` lines, and a new line is
/// always the last one kept.
pub proof fn lemma_log_bounded(logs: Seq<String>, line: String)
    requires
        logs.len() <= LOG_CAPACITY,
    ensures
        ({
            let after = if logs.len() >= LOG_CAPACITY {
                logs.subrange(1, logs.len() as int).push(line)
            } else {
                logs.push(line)
            };
            after.len() <= LOG_CAPACITY && after.last() == line
        }),
{
}

} // verus!
