//! The registry of all job records, keyed by job id.
//!
//! The store is the single source of truth: status queries read it and the
//! background workers write it. Its mathematical value is a map from id
//! text to [`RecordView`]. A job id, once inserted, is never removed, and
//! every mutation touches exactly one job's record: all other entries are
//! left untouched, which the contracts state as a frame condition together
//! with [`record_evolves`] for the touched record.
//!
//! The store itself is a plain value; the surrounding application wraps it
//! in whatever synchronisation its runtime needs and applies each call as
//! one atomic read-modify-write.

use vstd::prelude::*;
use vstd::string::StringExecFns;
use crate::artifact::{detect_new_artifact, first_new};
use crate::record::{
    fresh_record,
    record_completed,
    record_evolves,
    record_failed_exit,
    record_running,
    record_spawn_failed,
    record_with_line,
    lemma_record_evolves_refl,
    JobRecord,
    RecordView,
};

verus! {

/// One binding of the registry: a job id and its record.
struct Entry {
    id: String,
    rec: JobRecord,
}

/// A consistent copy of every queryable field of one record, taken at one
/// instant; the log is handed out as its lines joined with newlines, as
/// the status endpoint reports it.
pub struct StatusSnapshot {
    pub progress: u8,
    pub status: String,
    pub filename: Option<String>,
    pub log_text: String,
}

/// The log lines joined with a newline between consecutive lines.
pub open spec fn joined_log(log: Seq<Seq<char>>) -> Seq<char>
    decreases log.len(),
{
    if log.len() == 0 {
        Seq::empty()
    } else if log.len() == 1 {
        log[0]
    } else {
        joined_log(log.drop_last()) + "\n"@ + log.last()
    }
}

/// Appending log lines only extends the joined log text a poller reads:
/// two polls of the same job never see the text shrink or change in place.
pub proof fn lemma_joined_log_monotonic(a: Seq<Seq<char>>, b: Seq<Seq<char>>)
    requires
        a.is_prefix_of(b),
    ensures
        joined_log(a).is_prefix_of(joined_log(b)),
    decreases b.len(),
{
    if a.len() == b.len() {
        assert(a =~= b);
        assert(joined_log(a) =~= joined_log(a).subrange(0, joined_log(a).len() as int));
    } else if b.len() == 1 {
        assert(a =~= Seq::<Seq<char>>::empty());
        assert(joined_log(a) =~= joined_log(b).subrange(0, 0));
    } else {
        assert(a =~= b.drop_last().subrange(0, a.len() as int));
        lemma_joined_log_monotonic(a, b.drop_last());
        assert(joined_log(a) =~= joined_log(b).subrange(0, joined_log(a).len() as int));
    }
}

/// The map a sequence of bindings denotes; a later binding for the same
/// id would win, but the store keeps ids unique.
spec fn entries_map(s: Seq<Entry>) -> Map<Seq<char>, RecordView>
    decreases s.len(),
{
    if s.len() == 0 {
        Map::empty()
    } else {
        entries_map(s.drop_last()).insert(s.last().id@, s.last().rec@)
    }
}

/// No two bindings share an id.
spec fn entries_unique(s: Seq<Entry>) -> bool {
    forall|i: int, j: int| 0 <= i < j < s.len() ==> s[i].id@ != s[j].id@
}

/// The registry of all jobs.
pub struct JobStore {
    entries: Vec<Entry>,
}

impl View for JobStore {
    type V = Map<Seq<char>, RecordView>;

    closed spec fn view(&self) -> Map<Seq<char>, RecordView> {
        entries_map(self.entries@)
    }
}

/// An id occurs in the denoted map exactly when some binding carries it.
proof fn lemma_map_contains(s: Seq<Entry>, k: Seq<char>)
    ensures
        entries_map(s).contains_key(k) <==> exists|i: int|
            0 <= i < s.len() && #[trigger] s[i].id@ == k,
    decreases s.len(),
{
    if s.len() > 0 {
        lemma_map_contains(s.drop_last(), k);
        if s.last().id@ == k {
            assert(s[s.len() - 1].id@ == k);
        } else if entries_map(s).contains_key(k) {
            let i = choose|i: int| 0 <= i < s.drop_last().len() && #[trigger] s.drop_last()[i].id@ == k;
            assert(s[i].id@ == k);
        } else if exists|i: int| 0 <= i < s.len() && #[trigger] s[i].id@ == k {
            let i = choose|i: int| 0 <= i < s.len() && #[trigger] s[i].id@ == k;
            assert(s.drop_last()[i].id@ == k);
        }
    }
}

/// With unique ids, the denoted map takes each binding to its record.
proof fn lemma_map_at(s: Seq<Entry>, i: int)
    requires
        entries_unique(s),
        0 <= i < s.len(),
    ensures
        entries_map(s).contains_key(s[i].id@),
        entries_map(s)[s[i].id@] == s[i].rec@,
    decreases s.len(),
{
    if i < s.len() - 1 {
        lemma_map_at(s.drop_last(), i);
        assert(s.drop_last()[i] == s[i]);
    }
}

/// Replacing the record of one binding updates the denoted map at that
/// binding's id and nowhere else.
proof fn lemma_map_update(s: Seq<Entry>, i: int, e: Entry)
    requires
        entries_unique(s),
        0 <= i < s.len(),
        e.id@ == s[i].id@,
    ensures
        entries_unique(s.update(i, e)),
        entries_map(s.update(i, e)) == entries_map(s).insert(e.id@, e.rec@),
    decreases s.len(),
{
    let t = s.update(i, e);
    if i == s.len() - 1 {
        assert(t.drop_last() =~= s.drop_last());
        assert(entries_map(t) =~= entries_map(s).insert(e.id@, e.rec@));
    } else {
        lemma_map_update(s.drop_last(), i, e);
        assert(t.drop_last() =~= s.drop_last().update(i, e));
        assert(t.last() == s.last());
        assert(s.last().id@ != e.id@);
        assert(entries_map(t) =~= entries_map(s).insert(e.id@, e.rec@));
    }
}

/// Appending a binding with an unused id extends the denoted map.
proof fn lemma_map_push(s: Seq<Entry>, e: Entry)
    requires
        entries_unique(s),
        forall|i: int| 0 <= i < s.len() ==> s[i].id@ != e.id@,
    ensures
        entries_unique(s.push(e)),
        entries_map(s.push(e)) == entries_map(s).insert(e.id@, e.rec@),
{
    assert(s.push(e).drop_last() =~= s);
    assert(s.push(e).last() == e);
}

/// A map update with an evolved record preserves the id set, and every id
/// present before still holds a record the old one evolves into.
proof fn lemma_evolves_frame(
    m1: Map<Seq<char>, RecordView>,
    m2: Map<Seq<char>, RecordView>,
    k: Seq<char>,
    v: RecordView,
)
    requires
        m1.contains_key(k),
        record_evolves(m1[k], v),
        m2 == m1.insert(k, v),
    ensures
        m2.dom() == m1.dom(),
        forall|j: Seq<char>| #[trigger]
            m1.contains_key(j) ==> m2.contains_key(j) && record_evolves(m1[j], m2[j]),
{
    assert(m2.dom() =~= m1.dom());
    assert forall|j: Seq<char>| #[trigger] m1.contains_key(j) implies m2.contains_key(j)
        && record_evolves(m1[j], m2[j]) by {
        if j != k {
            lemma_record_evolves_refl(m1[j]);
        }
    }
}

/// An unchanged map trivially satisfies the evolution frame.
proof fn lemma_evolves_refl_all(m: Map<Seq<char>, RecordView>)
    ensures
        forall|j: Seq<char>| #[trigger]
            m.contains_key(j) ==> record_evolves(m[j], m[j]),
{
    assert forall|j: Seq<char>| #[trigger] m.contains_key(j) implies record_evolves(
        m[j],
        m[j],
    ) by {
        lemma_record_evolves_refl(m[j]);
    }
}

/// What a successful settlement leaves behind: progress reads exactly 100
/// once the terminal state is reached, and the recorded file name is
/// either absent or names a file of the after-listing that the pre-spawn
/// snapshot did not hold.
pub proof fn lemma_settle_success(
    r: RecordView,
    before: Seq<Seq<char>>,
    after: Seq<Seq<char>>,
)
    requires
        r.phase == crate::record::Phase::Running,
    ensures
        record_completed(r, first_new(before, after)).progress == 100,
        match record_completed(r, first_new(before, after)).filename {
            Some(n) => after.contains(n) && !before.contains(n),
            None => true,
        },
{
    crate::artifact::lemma_first_new_sound(before, after);
}

/// Relies on `uuid::Uuid::new_v4` for a fresh random version-4 UUID and on
/// its `Display` rendering in the hyphenated text form. Nothing is assumed
/// of the returned text: every caller works for an arbitrary identifier,
/// and the store re-checks whether the id is already bound.
#[verifier::external_body]
fn fresh_job_id() -> (id: String) {
    uuid::Uuid::new_v4().to_string()
}

/// The log lines joined with a newline between consecutive lines.
fn join_lines(lines: &Vec<String>) -> (r: String)
    ensures
        r@ == joined_log(lines.deep_view()),
{
    let ghost lv = lines.deep_view();
    let n = lines.len();
    let mut r = String::new();
    let mut i: usize = 0;
    proof {
        assert(lv.take(0) =~= Seq::<Seq<char>>::empty());
    }
    while i < n
        invariant
            n == lines.len(),
            i <= n,
            lv == lines.deep_view(),
            r@ == joined_log(lv.take(i as int)),
        decreases n - i,
    {
        if i > 0 {
            r.append("\n");
        }
        r.append(lines[i].as_str());
        proof {
            assert(lv[i as int] == lines[i as int]@);
            assert(lv.take(i + 1).drop_last() =~= lv.take(i as int));
            assert(lv.take(i + 1).last() == lv[i as int]);
            if i == 0 {
                assert(r@ =~= joined_log(lv.take(1)));
            }
        }
        i += 1;
    }
    proof {
        assert(lv.take(n as int) =~= lv);
    }
    r
}

impl JobStore {
    /// No two entries of the store share an id.
    pub closed spec fn wf(&self) -> bool {
        entries_unique(self.entries@)
    }

    /// An empty registry.
    pub fn new() -> (s: JobStore)
        ensures
            s.wf(),
            s@ == Map::<Seq<char>, RecordView>::empty(),
    {
        let s = JobStore { entries: Vec::new() };
        s
    }

    /// Index of the entry bound to `id`, if any.
    fn find_index(&self, id: &String) -> (r: Option<usize>)
        ensures
            match r {
                Some(i) => i < self.entries@.len() && self.entries@[i as int].id@ == id@,
                None => forall|j: int| 0 <= j < self.entries@.len()
                    ==> self.entries@[j].id@ != id@,
            },
    {
        let n = self.entries.len();
        let mut i: usize = 0;
        while i < n
            invariant
                n == self.entries@.len(),
                i <= n,
                forall|j: int| 0 <= j < i ==> self.entries@[j].id@ != id@,
            decreases n - i,
        {
            if self.entries[i].id == *id {
                return Some(i);
            }
            i += 1;
        }
        None
    }

    /// Allocate a fresh job id, bind it to a fresh record, and return it.
    /// In the (never observed) event that the drawn id is already bound,
    /// the old binding is replaced, exactly as a map insertion would.
    pub fn create(&mut self) -> (id: String)
        requires
            old(self).wf(),
        ensures
            final(self).wf(),
            final(self)@ == old(self)@.insert(id@, fresh_record()),
    {
        let id = fresh_job_id();
        let ret = id.clone();
        let rec = JobRecord::new();
        match self.find_index(&id) {
            Some(i) => {
                let mut e = self.entries.remove(i);
                e.rec = rec;
                self.entries.insert(i, e);
                proof {
                    assert(self.entries@ =~= old(self).entries@.update(i as int, e));
                    lemma_map_update(old(self).entries@, i as int, e);
                }
            },
            None => {
                self.entries.push(Entry { id, rec });
                proof {
                    let e = self.entries@.last();
                    assert(self.entries@ =~= old(self).entries@.push(e));
                    lemma_map_push(old(self).entries@, e);
                }
            },
        }
        ret
    }

    /// A consistent snapshot of the record bound to `id`, or `None` when
    /// the id was never created: an unknown id is "job not found", never a
    /// record with default fields.
    pub fn get(&self, id: &String) -> (r: Option<StatusSnapshot>)
        requires
            self.wf(),
        ensures
            r is Some <==> self@.contains_key(id@),
            match r {
                Some(snap) => {
                    &&& self@.contains_key(id@)
                    &&& snap.progress as int == self@[id@].progress
                    &&& snap.status@ == self@[id@].status
                    &&& snap.filename.deep_view() == self@[id@].filename
                    &&& snap.log_text@ == joined_log(self@[id@].log)
                },
                None => !self@.contains_key(id@),
            },
    {
        match self.find_index(id) {
            Some(i) => {
                proof {
                    lemma_map_at(self.entries@, i as int);
                    lemma_map_contains(self.entries@, id@);
                }
                let e = &self.entries[i];
                let log_text = join_lines(&e.rec.log);
                let filename = match &e.rec.filename {
                    Some(f) => Some(f.clone()),
                    None => None,
                };
                Some(
                    StatusSnapshot {
                        progress: e.rec.progress,
                        status: e.rec.status.clone(),
                        filename,
                        log_text,
                    },
                )
            },
            None => {
                proof {
                    lemma_map_contains(self.entries@, id@);
                }
                None
            },
        }
    }

    /// Append one line to the log of the job bound to `id`; a no-op for an
    /// unknown id or a terminal record. No other job's record changes, and
    /// the touched record only evolves.
    pub fn append_line(&mut self, id: &String, line: String)
        requires
            old(self).wf(),
        ensures
            final(self).wf(),
            final(self)@ == if old(self)@.contains_key(id@) {
                old(self)@.insert(id@, record_with_line(old(self)@[id@], line@))
            } else {
                old(self)@
            },
            final(self)@.dom() == old(self)@.dom(),
            forall|k: Seq<char>| #[trigger]
                old(self)@.contains_key(k) ==> final(self)@.contains_key(k)
                    && record_evolves(old(self)@[k], final(self)@[k]),
    {
        match self.find_index(id) {
            Some(i) => {
                proof {
                    lemma_map_at(self.entries@, i as int);
                    lemma_map_contains(self.entries@, id@);
                }
                let mut e = self.entries.remove(i);
                e.rec.add_line(line);
                self.entries.insert(i, e);
                proof {
                    assert(self.entries@ =~= old(self).entries@.update(i as int, e));
                    lemma_map_update(old(self).entries@, i as int, e);
                    lemma_evolves_frame(
                        old(self)@,
                        self@,
                        id@,
                        record_with_line(old(self)@[id@], line@),
                    );
                }
            },
            None => {
                proof {
                    lemma_map_contains(self.entries@, id@);
                    lemma_evolves_refl_all(old(self)@);
                }
            },
        }
    }

    /// Append one standard-error line: the line is prefixed with the error
    /// marker before it goes into the log.
    pub fn append_error_line(&mut self, id: &String, line: &String)
        requires
            old(self).wf(),
        ensures
            final(self).wf(),
            final(self)@ == if old(self)@.contains_key(id@) {
                old(self)@.insert(id@, record_with_line(old(self)@[id@], "Error: "@ + line@))
            } else {
                old(self)@
            },
            final(self)@.dom() == old(self)@.dom(),
            forall|k: Seq<char>| #[trigger]
                old(self)@.contains_key(k) ==> final(self)@.contains_key(k)
                    && record_evolves(old(self)@[k], final(self)@[k]),
    {
        let mut marked = String::from_str("Error: ");
        marked.append(line.as_str());
        self.append_line(id, marked);
    }

    /// Mark the job bound to `id` as running; a no-op for an unknown id or
    /// a record that is not `Preparing`.
    pub fn mark_running(&mut self, id: &String)
        requires
            old(self).wf(),
        ensures
            final(self).wf(),
            final(self)@ == if old(self)@.contains_key(id@) {
                old(self)@.insert(id@, record_running(old(self)@[id@]))
            } else {
                old(self)@
            },
            final(self)@.dom() == old(self)@.dom(),
            forall|k: Seq<char>| #[trigger]
                old(self)@.contains_key(k) ==> final(self)@.contains_key(k)
                    && record_evolves(old(self)@[k], final(self)@[k]),
    {
        match self.find_index(id) {
            Some(i) => {
                proof {
                    lemma_map_at(self.entries@, i as int);
                    lemma_map_contains(self.entries@, id@);
                }
                let mut e = self.entries.remove(i);
                e.rec.mark_running();
                self.entries.insert(i, e);
                proof {
                    assert(self.entries@ =~= old(self).entries@.update(i as int, e));
                    lemma_map_update(old(self).entries@, i as int, e);
                    lemma_evolves_frame(old(self)@, self@, id@, record_running(old(self)@[id@]));
                }
            },
            None => {
                proof {
                    lemma_map_contains(self.entries@, id@);
                    lemma_evolves_refl_all(old(self)@);
                }
            },
        }
    }

    /// Write the terminal state for a process that exited. On success the
    /// artifact is looked up by diffing the two directory listings, the
    /// success label is set and progress is forced to 100; on failure only
    /// the failure label is set. A no-op for an unknown id or a record
    /// that is not `Running`.
    pub fn settle_exit(
        &mut self,
        id: &String,
        exit_success: bool,
        before: &Vec<String>,
        after: &Vec<String>,
    )
        requires
            old(self).wf(),
        ensures
            final(self).wf(),
            final(self)@ == if old(self)@.contains_key(id@) {
                old(self)@.insert(
                    id@,
                    if exit_success {
                        record_completed(
                            old(self)@[id@],
                            first_new(before.deep_view(), after.deep_view()),
                        )
                    } else {
                        record_failed_exit(old(self)@[id@])
                    },
                )
            } else {
                old(self)@
            },
            final(self)@.dom() == old(self)@.dom(),
            forall|k: Seq<char>| #[trigger]
                old(self)@.contains_key(k) ==> final(self)@.contains_key(k)
                    && record_evolves(old(self)@[k], final(self)@[k]),
    {
        match self.find_index(id) {
            Some(i) => {
                proof {
                    lemma_map_at(self.entries@, i as int);
                    lemma_map_contains(self.entries@, id@);
                }
                let mut e = self.entries.remove(i);
                if exit_success {
                    let found = detect_new_artifact(before, after);
                    e.rec.complete(found);
                } else {
                    e.rec.fail_exit();
                }
                self.entries.insert(i, e);
                proof {
                    assert(self.entries@ =~= old(self).entries@.update(i as int, e));
                    lemma_map_update(old(self).entries@, i as int, e);
                    lemma_evolves_frame(old(self)@, self@, id@, e.rec@);
                }
            },
            None => {
                proof {
                    lemma_map_contains(self.entries@, id@);
                    lemma_evolves_refl_all(old(self)@);
                }
            },
        }
    }

    /// Write the terminal state for a process that could not be spawned:
    /// the status carries the spawn error text. A no-op for an unknown id
    /// or a record that is not `Preparing`.
    pub fn settle_spawn_error(&mut self, id: &String, err: &String)
        requires
            old(self).wf(),
        ensures
            final(self).wf(),
            final(self)@ == if old(self)@.contains_key(id@) {
                old(self)@.insert(id@, record_spawn_failed(old(self)@[id@], err@))
            } else {
                old(self)@
            },
            final(self)@.dom() == old(self)@.dom(),
            forall|k: Seq<char>| #[trigger]
                old(self)@.contains_key(k) ==> final(self)@.contains_key(k)
                    && record_evolves(old(self)@[k], final(self)@[k]),
    {
        match self.find_index(id) {
            Some(i) => {
                proof {
                    lemma_map_at(self.entries@, i as int);
                    lemma_map_contains(self.entries@, id@);
                }
                let mut e = self.entries.remove(i);
                e.rec.fail_spawn(err);
                self.entries.insert(i, e);
                proof {
                    assert(self.entries@ =~= old(self).entries@.update(i as int, e));
                    lemma_map_update(old(self).entries@, i as int, e);
                    lemma_evolves_frame(
                        old(self)@,
                        self@,
                        id@,
                        record_spawn_failed(old(self)@[id@], err@),
                    );
                }
            },
            None => {
                proof {
                    lemma_map_contains(self.entries@, id@);
                    lemma_evolves_refl_all(old(self)@);
                }
            },
        }
    }
}

} // verus!
