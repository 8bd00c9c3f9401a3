use peering_diag::web::jobs::{clean_line, match_watch_jobs, Job, JobInfo, JobStatus};

#[test]
fn lines_are_cleaned_and_kept() {
    let mut job = Job::new(1, "diag".to_string());
    assert_eq!(job.push_line("\x1b[32mhello\x1b[0m   "), Some("hello".to_string()));
    assert_eq!(job.push_line("   "), None);
    assert_eq!(job.push_line(""), None);
    assert_eq!(job.lines, vec!["hello".to_string()]);
    assert!(!job.is_done());
}

#[test]
fn clean_line_trims_trailing_space_only() {
    assert_eq!(clean_line("  a b \t"), Some("  a b".to_string()));
    assert_eq!(clean_line("\x1b[1m\x1b[0m"), None);
}

#[test]
fn kill_and_finish_end_the_job() {
    let mut job = Job::new(2, "mtr".to_string());
    job.kill();
    assert_eq!(job.status, JobStatus::Done);
    assert!(job.is_done());
    let mut job = Job::new(3, "mtr".to_string());
    job.finish(false);
    assert_eq!(job.status, JobStatus::Failed);
    let info = job.info();
    assert_eq!(info.id, 3);
    assert_eq!(info.command, "mtr");
}

fn info(id: u128, command: &str, status: JobStatus) -> JobInfo {
    JobInfo { id, command: command.to_string(), status }
}

#[test]
fn running_watch_jobs_go_to_newest_free_series() {
    let series = vec!["a".to_string(), "b".to_string(), "a".to_string()];
    let jobs = vec![
        info(10, "watch:a", JobStatus::Running),
        info(11, "watch:a", JobStatus::Running),
        info(12, "watch:a", JobStatus::Running),
        info(13, "watch:b", JobStatus::Done),
        info(14, "diag", JobStatus::Running),
    ];
    assert_eq!(match_watch_jobs(&series, &jobs), vec![Some(10), None, Some(11)]);
}

#[test]
fn job_keeps_at_most_five_thousand_lines() {
    let mut job = peering_diag::web::jobs::Job::new(1, "diag x".to_string());
    for i in 0..5001 {
        assert_eq!(job.push_line(&format!("line {}", i)), Some(format!("line {}", i)));
    }
    assert_eq!(job.lines.len(), peering_diag::web::jobs::MAX_JOB_LINES);
    assert_eq!(job.lines[0], "line 1");
    assert_eq!(job.lines[4999], "line 5000");
    assert_eq!(job.push_line("   "), None);
    assert_eq!(job.lines.len(), 5000);
}
