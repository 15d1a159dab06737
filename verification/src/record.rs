//! The mutable state of one download job and its lifecycle.
//!
//! A job moves through the phases `Preparing -> Running -> {Completed |
//! Failed}`; a spawn failure takes it from `Preparing` straight to `Failed`.
//! Terminal phases are absorbing: every transition function leaves a
//! terminal record untouched. The log is append-only for the life of the
//! job. Both facts are captured by [`record_evolves`], which every
//! transition establishes.

use vstd::prelude::*;
use vstd::string::StringExecFns;

verus! {

/// Lifecycle phase of a job.
#[derive(Clone, Copy, PartialEq, Eq, Debug, Structural)]
pub enum Phase {
    /// Record inserted, process not yet spawned.
    Preparing,
    /// Process spawned, output being collected.
    Running,
    /// Process exited with a success code.
    Completed,
    /// Process exited with a failure code, or never spawned.
    Failed,
}

/// A terminal phase admits no further transition.
pub open spec fn is_terminal(p: Phase) -> bool {
    p == Phase::Completed || p == Phase::Failed
}

/// Position of a phase along the lifecycle; terminal phases share a rank.
pub open spec fn phase_rank(p: Phase) -> int {
    match p {
        Phase::Preparing => 0,
        Phase::Running => 1,
        Phase::Completed => 2,
        Phase::Failed => 2,
    }
}

/// Mathematical value of a [`JobRecord`].
#[verifier::ext_equal]
pub ghost struct RecordView {
    pub phase: Phase,
    pub progress: int,
    pub status: Seq<char>,
    pub filename: Option<Seq<char>>,
    pub log: Seq<Seq<char>>,
}

/// The state of one download job.
pub struct JobRecord {
    pub phase: Phase,
    pub progress: u8,
    pub status: String,
    pub filename: Option<String>,
    pub log: Vec<String>,
}

impl View for JobRecord {
    type V = RecordView;

    open spec fn view(&self) -> RecordView {
        RecordView {
            phase: self.phase,
            progress: self.progress as int,
            status: self.status@,
            filename: self.filename.deep_view(),
            log: self.log.deep_view(),
        }
    }
}

/// The record every job starts from: phase `Preparing`, progress 0, the
/// preparing label, no file name, an empty log.
pub open spec fn fresh_record() -> RecordView {
    RecordView {
        phase: Phase::Preparing,
        progress: 0,
        status: "准备下载"@,
        filename: None,
        log: Seq::empty(),
    }
}

/// Effect of appending one log line: a no-op on a terminal record.
pub open spec fn record_with_line(r: RecordView, line: Seq<char>) -> RecordView {
    if is_terminal(r.phase) {
        r
    } else {
        RecordView { log: r.log.push(line), ..r }
    }
}

/// Effect of marking the job running: only a `Preparing` job moves.
pub open spec fn record_running(r: RecordView) -> RecordView {
    if r.phase == Phase::Preparing {
        RecordView { phase: Phase::Running, ..r }
    } else {
        r
    }
}

/// Effect of a successful process exit: progress is forced to 100, the
/// success label is set, and the detected artifact name (if any) is
/// recorded. Only a `Running` job moves.
pub open spec fn record_completed(r: RecordView, filename: Option<Seq<char>>) -> RecordView {
    if r.phase == Phase::Running {
        RecordView {
            phase: Phase::Completed,
            progress: 100,
            status: "下载完成"@,
            filename: filename,
            ..r
        }
    } else {
        r
    }
}

/// Effect of a failing process exit: the failure label is set and nothing
/// else changes. Only a `Running` job moves.
pub open spec fn record_failed_exit(r: RecordView) -> RecordView {
    if r.phase == Phase::Running {
        RecordView { phase: Phase::Failed, status: "下载失败"@, ..r }
    } else {
        r
    }
}

/// Effect of a spawn failure: the status carries the spawn error text.
/// Only a `Preparing` job moves (the process never ran).
pub open spec fn record_spawn_failed(r: RecordView, err: Seq<char>) -> RecordView {
    if r.phase == Phase::Preparing {
        RecordView { phase: Phase::Failed, status: "启动失败: "@ + err, ..r }
    } else {
        r
    }
}

/// How any record may change over time: the phase never moves backward,
/// the log only grows, and a terminal record never changes at all.
pub open spec fn record_evolves(a: RecordView, b: RecordView) -> bool {
    &&& a.phase == b.phase || phase_rank(a.phase) < phase_rank(b.phase)
    &&& a.log.is_prefix_of(b.log)
    &&& is_terminal(a.phase) ==> a == b
}

/// A record evolves into itself.
pub proof fn lemma_record_evolves_refl(a: RecordView)
    ensures
        record_evolves(a, a),
{
    assert(a.log =~= a.log.subrange(0, a.log.len() as int));
}

/// Evolution is transitive: chaining observations of a record over time
/// still satisfies the evolution relation, so the phase order and the
/// log-prefix guarantee hold between any two polls, however far apart.
pub proof fn lemma_record_evolves_trans(a: RecordView, b: RecordView, c: RecordView)
    requires
        record_evolves(a, b),
        record_evolves(b, c),
    ensures
        record_evolves(a, c),
{
    assert(a.log =~= c.log.subrange(0, a.log.len() as int));
}

/// No transition leaves a terminal phase: whatever happens to a record
/// after it is terminal, it reads back unchanged.
pub proof fn lemma_terminal_is_stable(a: RecordView, b: RecordView)
    requires
        record_evolves(a, b),
        is_terminal(a.phase),
    ensures
        b == a,
{
}

/// The lifecycle has exactly the advertised paths: a fresh record is
/// `Preparing`; marking it running yields `Running`; a `Running` record
/// settles to `Completed` on a successful exit and to `Failed` on a
/// failing one; and a spawn failure takes a fresh record to `Failed`
/// without passing through `Running`.
pub proof fn lemma_lifecycle_paths(filename: Option<Seq<char>>, err: Seq<char>)
    ensures
        fresh_record().phase == Phase::Preparing,
        record_running(fresh_record()).phase == Phase::Running,
        record_completed(record_running(fresh_record()), filename).phase == Phase::Completed,
        record_failed_exit(record_running(fresh_record())).phase == Phase::Failed,
        record_spawn_failed(fresh_record(), err).phase == Phase::Failed,
{
}

/// A spawn failure on a fresh record leaves the log empty and writes the
/// spawn error text, prefixed with the failure label, into the status.
pub proof fn lemma_spawn_failure_fresh(err: Seq<char>)
    ensures
        record_spawn_failed(fresh_record(), err).log =~= Seq::<Seq<char>>::empty(),
        record_spawn_failed(fresh_record(), err).status == "启动失败: "@ + err,
        record_spawn_failed(fresh_record(), err).phase == Phase::Failed,
{
}

impl JobRecord {
    /// A fresh record, as inserted at job-submission time.
    pub fn new() -> (r: JobRecord)
        ensures
            r@ == fresh_record(),
    {
        let r = JobRecord {
            phase: Phase::Preparing,
            progress: 0,
            status: "准备下载".to_owned(),
            filename: None,
            log: Vec::new(),
        };
        proof {
            assert(r@.log =~= fresh_record().log);
            assert(r@ =~= fresh_record());
        }
        r
    }

    /// Append one log line; a no-op once the record is terminal.
    pub fn add_line(&mut self, line: String)
        ensures
            final(self)@ == record_with_line(old(self)@, line@),
            record_evolves(old(self)@, final(self)@),
    {
        let terminal = match self.phase {
            Phase::Completed => true,
            Phase::Failed => true,
            _ => false,
        };
        if !terminal {
            self.log.push(line);
            proof {
                assert(self@.log =~= old(self)@.log.push(line@));
                assert(self@ =~= record_with_line(old(self)@, line@));
                assert(old(self)@.log =~= self@.log.subrange(0, old(self)@.log.len() as int));
            }
        } else {
            proof {
                lemma_record_evolves_refl(old(self)@);
            }
        }
    }

    /// Move a `Preparing` record to `Running`.
    pub fn mark_running(&mut self)
        ensures
            final(self)@ == record_running(old(self)@),
            record_evolves(old(self)@, final(self)@),
    {
        match self.phase {
            Phase::Preparing => {
                self.phase = Phase::Running;
                proof {
                    assert(self@ =~= record_running(old(self)@));
                    assert(old(self)@.log =~= self@.log.subrange(
                        0,
                        old(self)@.log.len() as int,
                    ));
                }
            },
            _ => {
                proof {
                    lemma_record_evolves_refl(old(self)@);
                }
            },
        }
    }

    /// Terminal transition for a successful exit.
    pub fn complete(&mut self, filename: Option<String>)
        ensures
            final(self)@ == record_completed(old(self)@, filename.deep_view()),
            record_evolves(old(self)@, final(self)@),
    {
        match self.phase {
            Phase::Running => {
                self.phase = Phase::Completed;
                self.progress = 100;
                self.status = "下载完成".to_owned();
                self.filename = filename;
                proof {
                    assert(self@ =~= record_completed(old(self)@, filename.deep_view()));
                    assert(old(self)@.log =~= self@.log.subrange(
                        0,
                        old(self)@.log.len() as int,
                    ));
                }
            },
            _ => {
                proof {
                    lemma_record_evolves_refl(old(self)@);
                }
            },
        }
    }

    /// Terminal transition for a failing exit.
    pub fn fail_exit(&mut self)
        ensures
            final(self)@ == record_failed_exit(old(self)@),
            record_evolves(old(self)@, final(self)@),
    {
        match self.phase {
            Phase::Running => {
                self.phase = Phase::Failed;
                self.status = "下载失败".to_owned();
                proof {
                    assert(self@ =~= record_failed_exit(old(self)@));
                    assert(old(self)@.log =~= self@.log.subrange(
                        0,
                        old(self)@.log.len() as int,
                    ));
                }
            },
            _ => {
                proof {
                    lemma_record_evolves_refl(old(self)@);
                }
            },
        }
    }

    /// Terminal transition for a process that never spawned: the status
    /// carries the spawn error text.
    pub fn fail_spawn(&mut self, err: &String)
        ensures
            final(self)@ == record_spawn_failed(old(self)@, err@),
            record_evolves(old(self)@, final(self)@),
    {
        match self.phase {
            Phase::Preparing => {
                let mut status = String::from_str("启动失败: ");
                status.append(err.as_str());
                self.phase = Phase::Failed;
                self.status = status;
                proof {
                    assert(self@ =~= record_spawn_failed(old(self)@, err@));
                    assert(old(self)@.log =~= self@.log.subrange(
                        0,
                        old(self)@.log.len() as int,
                    ));
                }
            },
            _ => {
                proof {
                    lemma_record_evolves_refl(old(self)@);
                }
            },
        }
    }
}

} // verus!
