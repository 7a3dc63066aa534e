use dms_name_matching::jobs::{resume_job_id, JobEvent, JobStatus, LOG_CAPACITY};

#[test]
fn job_lifecycle() {
    let mut s = JobStatus::new();
    assert!(s.check_can_start().is_ok());
    assert_eq!(s.request_stop(), Err("No job is currently running".to_string()));
    s.job_started("job-1".to_string(), false);
    assert_eq!(s.notice, "Processing started.");
    assert!(s.running && s.controllable && !s.paused);
    assert_eq!(
        s.check_can_start(),
        Err("A job is already running. Stop it or wait for completion before starting another job.".to_string())
    );
    assert_eq!(s.request_pause(true), Ok(()));
    assert!(s.paused);
    assert_eq!(s.notice, "Pause requested. The engine will pause at a safe checkpoint.");
    assert!(!s.apply(JobEvent::Log("line".into())));
    assert!(!s.apply(JobEvent::Snapshot));
    assert!(s.apply(JobEvent::Finished));
    assert!(!s.running && !s.paused && !s.controllable);
    assert_eq!(s.notice, "Processing completed and reconciled successfully.");
    assert_eq!(s.logs.back().map(|l| l.as_str()), Some("line"));
}

#[test]
fn failures_record_the_error() {
    let mut s = JobStatus::new();
    s.job_started("job-2".to_string(), true);
    assert_eq!(s.notice, "Resume requested.");
    assert!(s.apply(JobEvent::Failed("boom".into())));
    assert_eq!(s.error, "boom");
    assert!(!s.running);
    assert_eq!(s.request_pause(false), Err("No job is currently running".to_string()));
    s.config_saved();
    assert_eq!(s.notice, "Configuration saved locally.");
    assert!(s.error.is_empty());
}

#[test]
fn log_keeps_the_newest_lines() {
    let mut s = JobStatus::new();
    for i in 0..(LOG_CAPACITY + 20) {
        s.apply(JobEvent::Log(format!("{i}")));
    }
    assert_eq!(s.logs.len(), LOG_CAPACITY);
    assert_eq!(s.logs.front().unwrap(), "20");
    assert_eq!(s.logs.back().unwrap(), &format!("{}", LOG_CAPACITY + 19));
}

#[test]
fn resume_ids_are_trimmed() {
    assert_eq!(resume_job_id(true, "  abc \n"), Some("abc".to_string()));
    assert_eq!(resume_job_id(true, "   "), None);
    assert_eq!(resume_job_id(false, "abc"), None);
}

#[test]
fn control_requests_keep_the_active_job() {
    let mut s = JobStatus::new();
    s.job_started("job-7".to_string(), false);
    assert_eq!(s.request_pause(true), Ok(()));
    assert_eq!(s.active_job_id, "job-7");
    assert_eq!(s.request_stop(), Ok(()));
    assert_eq!(s.active_job_id, "job-7");
    s.config_saved();
    assert_eq!(s.active_job_id, "job-7");
}
