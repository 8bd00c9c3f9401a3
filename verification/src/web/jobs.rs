//! Long-running jobs of the web interface (diag, mtr, watch...).
//!
//! A job runs the program itself as a subprocess; each output line is kept,
//! once cleaned of terminal escape sequences, so that a client connecting
//! late gets the whole output replayed.

use vstd::prelude::*;
use crate::text::{
    chars_of, has_prefix, string_from_chars, trim_end_chars, trim_end_spec, starts_with_chars, str_eq,
};

verus! {

/// State of a job.
#[derive(Debug, Clone, Copy, PartialEq, Eq, Structural)]
pub enum JobStatus {
    Running,
    Done,
    Failed,
}

/// What is shown of a job.
#[derive(Debug)]
pub struct JobInfo {
    pub id: u128,
    pub command: String,
    pub status: JobStatus,
}

/// A job: its label, the lines it printed so far and its state.
#[derive(Debug)]
pub struct Job {
    pub id: u128,
    pub command: String,
    /// Lines already produced, for the clients that connect late.
    pub lines: Vec<String>,
    pub status: JobStatus,
}

/// What `strip_ansi_escapes::strip_str` makes of a string.
pub uninterp spec fn ansi_stripped(s: Seq<char>) -> Seq<char>;

/// Removes the ANSI escape sequences of `raw`, as `strip_ansi_escapes::strip_str`
/// does it (its result is named, not described: it depends on `raw` alone).
#[verifier::external_body]
fn strip_ansi(raw: &str) -> (r: String)
    ensures
        r@ == ansi_stripped(raw@),
{
    strip_ansi_escapes::strip_str(raw)
}

/// The line kept for the raw output line `raw`: escape sequences and
/// trailing white space removed; nothing when that leaves it empty.
pub open spec fn cleaned(raw: Seq<char>) -> Option<Seq<char>> {
    let line = trim_end_spec(ansi_stripped(raw));
    if line.len() == 0 {
        None
    } else {
        Some(line)
    }
}

/// The line that the raw output line `line` gives once its escape sequences
/// and trailing white space are removed (`None` when nothing is left).
pub fn clean_line(raw: &str) -> (r: Option<String>)
    ensures
        match cleaned(raw@) {
            Some(l) => r matches Some(s) && s@ == l,
            None => r is None,
        },
{
    let stripped = strip_ansi(raw);
    let cs = chars_of(stripped.as_str());
    let kept = trim_end_chars(cs.as_slice());
    if kept.len() == 0 {
        None
    } else {
        Some(string_from_chars(&kept))
    }
}

/// The number of output lines a job keeps; older lines are dropped.
pub const MAX_JOB_LINES: usize = 5000;

/// The last `MAX_JOB_LINES` lines of `s` (all of them when there are fewer).
pub open spec fn last_lines(s: Seq<Seq<char>>) -> Seq<Seq<char>> {
    if s.len() > MAX_JOB_LINES {
        s.subrange(s.len() - MAX_JOB_LINES, s.len() as int)
    } else {
        s
    }
}

/// The views of a sequence of strings.
pub open spec fn line_views(v: Seq<String>) -> Seq<Seq<char>> {
    v.map_values(|s: String| s@)
}

impl Job {
    /// A new running job with no output yet.
    pub fn new(id: u128, command: String) -> (j: Job)
        ensures
            j.id == id,
            j.command@ == command@,
            j.lines@.len() == 0,
            j.status == JobStatus::Running,
    {
        Job { id, command, lines: Vec::new(), status: JobStatus::Running }
    }

    /// Records an output line of the subprocess. Returns the cleaned line to
    /// broadcast to the connected clients, or nothing when the line is empty
    /// once cleaned (it is then not kept either). At most `MAX_JOB_LINES`
    /// lines are kept: the oldest ones are dropped first.
    pub fn push_line(&mut self, raw: &str) -> (r: Option<String>)
        ensures
            final(self).id == old(self).id,
            final(self).command == old(self).command,
            final(self).status == old(self).status,
            match cleaned(raw@) {
                Some(l) => r matches Some(s) && s@ == l && line_views(final(self).lines@) == last_lines(
                    line_views(old(self).lines@).push(l),
                ),
                None => r is None && final(self).lines@ == old(self).lines@,
            },
    {
        match clean_line(raw) {
            Some(line) => {
                let ghost all = line_views(self.lines@).push(line@);
                let out = line.clone();
                self.lines.push(line);
                assert(line_views(self.lines@) =~= all);
                while self.lines.len() > MAX_JOB_LINES
                    invariant
                        self.lines@.len() <= all.len(),
                        line_views(self.lines@) == all.subrange(all.len() - self.lines@.len(), all.len() as int),
                        last_lines(all) == last_lines(line_views(self.lines@)),
                        self.id == old(self).id,
                        self.command == old(self).command,
                        self.status == old(self).status,
                    decreases self.lines@.len(),
                {
                    let ghost before = line_views(self.lines@);
                    self.lines.remove(0);
                    assert(line_views(self.lines@) =~= before.subrange(1, before.len() as int));
                    assert(line_views(self.lines@) =~= all.subrange(all.len() - self.lines@.len(), all.len() as int));
                    assert(last_lines(before) =~= last_lines(line_views(self.lines@)));
                }
                assert(last_lines(line_views(self.lines@)) == line_views(self.lines@));
                Some(out)
            },
            None => None,
        }
    }

    /// Stops the job: its subprocess is killed and the job counts as done.
    pub fn kill(&mut self)
        ensures
            final(self).status == JobStatus::Done,
            final(self).id == old(self).id,
            final(self).command == old(self).command,
            final(self).lines@ == old(self).lines@,
    {
        self.status = JobStatus::Done;
    }

    /// Records the end of the subprocess: done when it exited successfully,
    /// failed otherwise.
    pub fn finish(&mut self, success: bool)
        ensures
            final(self).status == (if success {
                JobStatus::Done
            } else {
                JobStatus::Failed
            }),
            final(self).id == old(self).id,
            final(self).command == old(self).command,
            final(self).lines@ == old(self).lines@,
    {
        self.status = if success {
            JobStatus::Done
        } else {
            JobStatus::Failed
        };
    }

    /// The job is no longer running.
    pub fn is_done(&self) -> (r: bool)
        ensures
            r == (self.status != JobStatus::Running),
    {
        self.status != JobStatus::Running
    }

    /// What is shown of the job.
    pub fn info(&self) -> (i: JobInfo)
        ensures
            i.id == self.id,
            i.command@ == self.command@,
            i.status == self.status,
    {
        JobInfo { id: self.id, command: self.command.clone(), status: self.status }
    }
}

/// Every line kept by a job is non-empty and has no trailing white space.
pub proof fn lemma_kept_lines_are_trimmed(raw: Seq<char>)
    ensures
        match cleaned(raw) {
            Some(l) => l.len() > 0 && !crate::text::is_white(l.last()),
            None => true,
        },
{
    lemma_trim_end_no_trailing_white(ansi_stripped(raw));
}

proof fn lemma_trim_end_no_trailing_white(s: Seq<char>)
    ensures
        trim_end_spec(s).len() > 0 ==> !crate::text::is_white(trim_end_spec(s).last()),
    decreases s.len(),
{
    if s.len() > 0 && crate::text::is_white(s.last()) {
        lemma_trim_end_no_trailing_white(s.drop_last());
    }
}

// ─── Watch jobs and watch sessions ────────────────────────────────────────────

/// The target of the running watch job `j`, if it is one.
pub open spec fn running_watch_target(j: JobInfo) -> Option<Seq<char>> {
    if j.status == JobStatus::Running && has_prefix(j.command@, "watch:"@) {
        Some(j.command@.subrange(6, j.command@.len() as int))
    } else {
        None
    }
}

/// Index of the first series on `target` that has no job yet.
pub open spec fn first_free(targets: Seq<Seq<char>>, assigned: Seq<Option<u128>>, target: Seq<char>) -> Option<
    int,
> {
    if exists|i: int| 0 <= i < targets.len() && targets[i] == target && assigned[i] is None {
        Some(
            choose|i: int|
                0 <= i < targets.len() && targets[i] == target && assigned[i] is None && forall|k: int|
                    0 <= k < i ==> !(targets[k] == target && assigned[k] is None),
        )
    } else {
        None
    }
}

/// Jobs assigned to the series (newest first) after considering the first
/// `n` jobs, in order.
pub open spec fn assign_jobs(targets: Seq<Seq<char>>, jobs: Seq<JobInfo>, n: int) -> Seq<Option<u128>>
    decreases n,
{
    if n <= 0 {
        Seq::new(targets.len(), |i: int| None)
    } else {
        let prev = assign_jobs(targets, jobs, n - 1);
        match running_watch_target(jobs[n - 1]) {
            Some(t) => match first_free(targets, prev, t) {
                Some(i) => prev.update(i, Some(jobs[n - 1].id)),
                None => prev,
            },
            None => prev,
        }
    }
}

/// Links the active watch jobs to the stored watch series: each running job
/// labelled "watch:<target>" goes to the most recent series on the same
/// target (the series come newest first) that has no job yet.
#[verifier::rlimit(40)]
pub fn match_watch_jobs(series_targets: &Vec<String>, jobs: &Vec<JobInfo>) -> (r: Vec<Option<u128>>)
    ensures
        r@ == assign_jobs(series_targets@.map_values(|s: String| s@), jobs@, jobs@.len() as int),
{
    let ghost targets = series_targets@.map_values(|s: String| s@);
    let mut r: Vec<Option<u128>> = Vec::new();
    let mut i: usize = 0;
    while i < series_targets.len()
        invariant
            i <= series_targets@.len(),
            r@ == Seq::new(i as nat, |k: int| None::<u128>),
        decreases series_targets@.len() - i,
    {
        r.push(None);
        i = i + 1;
        assert(r@ =~= Seq::new(i as nat, |k: int| None::<u128>));
    }
    assert(r@ =~= assign_jobs(targets, jobs@, 0));
    let prefix = chars_of("watch:");
    proof {
        reveal_strlit("watch:");
    }
    let mut j: usize = 0;
    while j < jobs.len()
        invariant
            j <= jobs@.len(),
            prefix@ == "watch:"@,
            prefix@.len() == 6,
            targets == series_targets@.map_values(|s: String| s@),
            r@ == assign_jobs(targets, jobs@, j as int),
            r@.len() == targets.len(),
        decreases jobs@.len() - j,
    {
        let job = &jobs[j];
        if job.status == JobStatus::Running {
            let cs = chars_of(job.command.as_str());
            if starts_with_chars(cs.as_slice(), prefix.as_slice()) {
                let mut rest: Vec<char> = Vec::new();
                let mut k: usize = 6;
                while k < cs.len()
                    invariant
                        6 <= k <= cs@.len(),
                        rest@ == cs@.subrange(6, k as int),
                    decreases cs@.len() - k,
                {
                    rest.push(cs[k]);
                    k = k + 1;
                    assert(rest@ =~= cs@.subrange(6, k as int));
                }
                let target = string_from_chars(&rest);
                let mut s: usize = 0;
                let mut found = false;
                while s < series_targets.len() && !found
                    invariant
                        s <= series_targets@.len(),
                        r@.len() == targets.len(),
                        targets == series_targets@.map_values(|x: String| x@),
                        !found ==> forall|k: int| 0 <= k < s ==> !(targets[k] == target@ && r@[k] is None),
                        found ==> s >= 1 && targets[s - 1] == target@ && r@[s - 1] is None && forall|k: int|
                            0 <= k < s - 1 ==> !(targets[k] == target@ && r@[k] is None),
                    decreases series_targets@.len() - s + (if found { 0int } else { 1int }),
                {
                    assert(targets[s as int] == series_targets@[s as int]@);
                    if r[s].is_none() && str_eq(series_targets[s].as_str(), target.as_str()) {
                        found = true;
                    }
                    s = s + 1;
                }
                proof {
                    let prev = assign_jobs(targets, jobs@, j as int);
                    assert(running_watch_target(jobs@[j as int]) == Some(target@));
                    if found {
                        let w = (s - 1) as int;
                        assert(targets[w] == target@ && prev[w] is None && forall|k: int|
                            0 <= k < w ==> !(targets[k] == target@ && prev[k] is None));
                        let c = choose|i: int|
                            0 <= i < targets.len() && targets[i] == target@ && prev[i] is None && forall|k: int|
                                0 <= k < i ==> !(targets[k] == target@ && prev[k] is None);
                        if c < w {
                        } else if c > w {
                            assert(!(targets[w] == target@ && prev[w] is None));
                        }
                        assert(first_free(targets, prev, target@) == Some(w));
                    } else {
                        assert(first_free(targets, prev, target@) is None);
                    }
                }
                if found {
                    r.set(s - 1, Some(job.id));
                }
            }
        }
        j = j + 1;
    }
    r
}

} // verus!
