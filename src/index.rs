//! The compact per-task index: status, calendar dates and contributing files.

use vstd::prelude::*;
use crate::event::{all_wf, Event, Operation};
use crate::state::TaskStatus;
use crate::text::{copy_opt_text, opt_view, text_less, text_lt, texts_contain, texts_view};
use crate::time::{calendar_day, Timestamp};

verus! {

/// The events of one active log file, in line order.
#[derive(Clone, Debug)]
pub struct LogEvents {
    pub file: String,
    pub events: Vec<Event>,
}

/// The summary of one task.
#[derive(Clone, Debug)]
pub struct TaskIndex {
    pub id: String,
    pub status: TaskStatus,
    /// Day of the last Create, `YYYY-MM-DD`.
    pub created: String,
    /// Day of the last event that touched the task.
    pub updated: String,
    /// Day of the completion, while the task is complete.
    pub completed: Option<String>,
    /// The log files that hold an event for this id, in log order.
    pub files: Vec<String>,
    pub archived: Option<String>,
}

pub struct TaskIndexView {
    pub id: Seq<char>,
    pub status: TaskStatus,
    pub created: Seq<char>,
    pub updated: Seq<char>,
    pub completed: Option<Seq<char>>,
    pub files: Seq<Seq<char>>,
    pub archived: Option<Seq<char>>,
}

impl View for TaskIndex {
    type V = TaskIndexView;

    open spec fn view(&self) -> TaskIndexView {
        TaskIndexView {
            id: self.id@,
            status: self.status,
            created: self.created@,
            updated: self.updated@,
            completed: opt_view(self.completed),
            files: texts_view(self.files),
            archived: opt_view(self.archived),
        }
    }
}

/// The index of every task ever created in the active log, and the instant
/// it was computed.
#[derive(Clone, Debug)]
pub struct Index {
    pub tasks: Vec<TaskIndex>,
    pub rebuilt: Timestamp,
}

pub open spec fn index_view(entries: Seq<TaskIndex>) -> Seq<TaskIndexView> {
    entries.map_values(|x: TaskIndex| x@)
}

/// The events of all logs, file after file.
pub open spec fn flat(logs: Seq<LogEvents>) -> Seq<Event>
    decreases logs.len(),
{
    if logs.len() == 0 {
        Seq::empty()
    } else {
        flat(logs.drop_last()) + logs.last().events@
    }
}

/// Every event of every log is well formed.
pub open spec fn logs_wf(logs: Seq<LogEvents>) -> bool {
    forall|k: int| 0 <= k < logs.len() ==> all_wf(#[trigger] logs[k].events@)
}

pub open spec fn find_entry(entries: Seq<TaskIndexView>, id: Seq<char>) -> Option<int> {
    if exists|i: int| 0 <= i < entries.len() && entries[i].id == id {
        Some(choose|i: int| 0 <= i < entries.len() && entries[i].id == id)
    } else {
        None
    }
}

pub open spec fn entries_unique(entries: Seq<TaskIndexView>) -> bool {
    forall|i: int, j: int|
        0 <= i < entries.len() && 0 <= j < entries.len() && i != j ==> entries[i].id != entries[j].id
}

/// No entry lists any file yet.
pub open spec fn no_files(entries: Seq<TaskIndexView>) -> bool {
    forall|i: int| 0 <= i < entries.len() ==> (#[trigger] entries[i]).files.len() == 0
}

pub open spec fn day_of(t: Timestamp) -> Seq<char> {
    calendar_day(t.secs, t.nanos)
}

/// What an event other than Create does to an entry.
pub open spec fn noted(x: TaskIndexView, e: Event) -> TaskIndexView {
    let day = day_of(e.ts);
    match e.op {
        Operation::Complete => TaskIndexView {
            status: TaskStatus::Complete,
            updated: day,
            completed: Some(day),
            ..x
        },
        Operation::Reopen => TaskIndexView {
            status: TaskStatus::Open,
            updated: day,
            completed: None,
            ..x
        },
        Operation::Archive => TaskIndexView { updated: day, archived: e.d@.reference, ..x },
        _ => TaskIndexView { updated: day, ..x },
    }
}

/// The entry that a Create event starts, before its files are known.
pub open spec fn fresh_entry(e: Event) -> TaskIndexView {
    TaskIndexView {
        id: e.id@,
        status: TaskStatus::Open,
        created: day_of(e.ts),
        updated: day_of(e.ts),
        completed: None,
        files: Seq::empty(),
        archived: None,
    }
}

pub open spec fn note(entries: Seq<TaskIndexView>, e: Event) -> Seq<TaskIndexView> {
    match find_entry(entries, e.id@) {
        Some(i) => if e.op is Create {
            entries.update(i, fresh_entry(e))
        } else {
            entries.update(i, noted(entries[i], e))
        },
        None => if e.op is Create {
            entries.push(fresh_entry(e))
        } else {
            entries
        },
    }
}

/// The entries after noting a sequence of events in order, files aside.
pub open spec fn index_info(events: Seq<Event>) -> Seq<TaskIndexView>
    decreases events.len(),
{
    if events.len() == 0 {
        Seq::empty()
    } else {
        note(index_info(events.drop_last()), events.last())
    }
}

/// Whether a log holds an event for this id.
pub open spec fn log_mentions(log: LogEvents, id: Seq<char>) -> bool {
    exists|j: int| 0 <= j < log.events@.len() && log.events@[j].id@ == id
}

/// The names of the logs that hold an event for this id, in log order,
/// each once.
pub open spec fn files_of(logs: Seq<LogEvents>, id: Seq<char>) -> Seq<Seq<char>>
    decreases logs.len(),
{
    if logs.len() == 0 {
        Seq::empty()
    } else {
        let prev = files_of(logs.drop_last(), id);
        if log_mentions(logs.last(), id) && !prev.contains(logs.last().file@) {
            prev.push(logs.last().file@)
        } else {
            prev
        }
    }
}

/// The index of a sequence of logs.
pub open spec fn index_of(logs: Seq<LogEvents>) -> Seq<TaskIndexView> {
    index_info(flat(logs)).map_values(
        |x: TaskIndexView| TaskIndexView { files: files_of(logs, x.id), ..x },
    )
}

proof fn lemma_note_unique(entries: Seq<TaskIndexView>, e: Event)
    requires
        entries_unique(entries),
    ensures
        entries_unique(note(entries, e)),
{
    let r = note(entries, e);
    match find_entry(entries, e.id@) {
        Some(i) => {
            assert forall|a: int, b: int|
                0 <= a < r.len() && 0 <= b < r.len() && a != b implies r[a].id != r[b].id by {
                assert(r[i].id == entries[i].id);
            }
        },
        None => {},
    }
}

fn entry_position(entries: &Vec<TaskIndex>, id: &String) -> (r: Option<usize>)
    ensures
        r matches Some(i) ==> i < entries.len() && entries@[i as int].id@ == id@,
        r is None ==> forall|j: int| 0 <= j < entries.len() ==> entries@[j].id@ != id@,
{
    let mut i: usize = 0;
    while i < entries.len()
        invariant
            i <= entries.len(),
            forall|j: int| 0 <= j < i ==> entries@[j].id@ != id@,
        decreases entries.len() - i,
    {
        if entries[i].id == *id {
            return Some(i);
        }
        i = i + 1;
    }
    None
}

/// Notes one event in the entries.
fn note_event(entries: &mut Vec<TaskIndex>, e: &Event)
    requires
        e.wf(),
        entries_unique(index_view(old(entries)@)),
        no_files(index_view(old(entries)@)),
    ensures
        index_view(final(entries)@) == note(index_view(old(entries)@), *e),
        entries_unique(index_view(final(entries)@)),
        no_files(index_view(final(entries)@)),
{
    let ghost before = index_view(entries@);
    proof {
        lemma_note_unique(before, *e);
    }
    let day = e.ts.day_text();
    match entry_position(entries, &e.id) {
        Some(i) => {
            assert(find_entry(before, e.id@) == Some(i as int));
            let old_entry = &entries[i];
            let x = match e.op {
                Operation::Create => TaskIndex {
                    id: e.id.clone(),
                    status: TaskStatus::Open,
                    created: day.clone(),
                    updated: day,
                    completed: None,
                    files: Vec::new(),
                    archived: None,
                },
                Operation::Complete => TaskIndex {
                    id: old_entry.id.clone(),
                    status: TaskStatus::Complete,
                    created: old_entry.created.clone(),
                    updated: day.clone(),
                    completed: Some(day),
                    files: Vec::new(),
                    archived: copy_opt_text(&old_entry.archived),
                },
                Operation::Reopen => TaskIndex {
                    id: old_entry.id.clone(),
                    status: TaskStatus::Open,
                    created: old_entry.created.clone(),
                    updated: day,
                    completed: None,
                    files: Vec::new(),
                    archived: copy_opt_text(&old_entry.archived),
                },
                Operation::Archive => TaskIndex {
                    id: old_entry.id.clone(),
                    status: old_entry.status,
                    created: old_entry.created.clone(),
                    updated: day,
                    completed: copy_opt_text(&old_entry.completed),
                    files: Vec::new(),
                    archived: copy_opt_text(&e.d.reference),
                },
                _ => TaskIndex {
                    id: old_entry.id.clone(),
                    status: old_entry.status,
                    created: old_entry.created.clone(),
                    updated: day,
                    completed: copy_opt_text(&old_entry.completed),
                    files: Vec::new(),
                    archived: copy_opt_text(&old_entry.archived),
                },
            };
            proof {
                assert(texts_view(x.files) =~= Seq::<Seq<char>>::empty());
                assert(before[i as int].files =~= Seq::<Seq<char>>::empty());
            }
            entries.set(i, x);
            proof {
                assert(index_view(entries@) =~= note(before, *e));
            }
        },
        None => {
            if e.op == Operation::Create {
                let x = TaskIndex {
                    id: e.id.clone(),
                    status: TaskStatus::Open,
                    created: day.clone(),
                    updated: day,
                    completed: None,
                    files: Vec::new(),
                    archived: None,
                };
                proof {
                    assert(texts_view(x.files) =~= Seq::<Seq<char>>::empty());
                }
                entries.push(x);
                proof {
                    assert(index_view(entries@) =~= before.push(fresh_entry(*e)));
                }
            }
        },
    }
}

/// Whether a log holds an event for this id.
fn mentions(log: &LogEvents, id: &String) -> (r: bool)
    ensures
        r == log_mentions(*log, id@),
{
    let mut j: usize = 0;
    while j < log.events.len()
        invariant
            j <= log.events.len(),
            forall|k: int| 0 <= k < j ==> log.events@[k].id@ != id@,
        decreases log.events.len() - j,
    {
        if log.events[j].id == *id {
            return true;
        }
        j = j + 1;
    }
    false
}

/// The names of the logs that hold an event for this id, in log order, each
/// once.
fn files_for(logs: &Vec<LogEvents>, id: &String) -> (r: Vec<String>)
    ensures
        texts_view(r) == files_of(logs@, id@),
{
    let mut r: Vec<String> = Vec::new();
    let mut k: usize = 0;
    proof {
        assert(logs@.take(0) =~= Seq::<LogEvents>::empty());
        assert(texts_view(r) =~= Seq::<Seq<char>>::empty());
    }
    while k < logs.len()
        invariant
            k <= logs.len(),
            texts_view(r) == files_of(logs@.take(k as int), id@),
        decreases logs.len() - k,
    {
        proof {
            assert(logs@.take(k + 1).drop_last() =~= logs@.take(k as int));
            assert(logs@.take(k + 1).last() == logs@[k as int]);
        }
        if mentions(&logs[k], id) && !texts_contain(&r, &logs[k].file) {
            let ghost prev = r@;
            r.push(logs[k].file.clone());
            proof {
                assert(texts_view(r) =~= prev.map_values(|s: String| s@).push(logs@[k as int].file@));
            }
        }
        k = k + 1;
    }
    proof {
        assert(logs@.take(logs.len() as int) =~= logs@);
    }
    r
}

/// The logs come in strictly ascending order of file name.
pub open spec fn names_ascending(logs: Seq<LogEvents>) -> bool {
    forall|i: int, j: int| 0 <= i < j < logs.len() ==> text_lt(logs[i].file@, logs[j].file@)
}

/// A list of texts in strictly ascending order.
pub open spec fn texts_ascending(l: Seq<Seq<char>>) -> bool {
    forall|a: int, b: int| 0 <= a < b < l.len() ==> text_lt(l[a], l[b])
}

/// With logs in name order, the files of an id come in name order, and each
/// is the name of one of the logs.
pub proof fn lemma_files_of_ascending(logs: Seq<LogEvents>, id: Seq<char>)
    requires
        names_ascending(logs),
    ensures
        texts_ascending(files_of(logs, id)),
        forall|a: int|
            0 <= a < files_of(logs, id).len() ==> exists|j: int|
                0 <= j < logs.len() && #[trigger] files_of(logs, id)[a] == logs[j].file@,
    decreases logs.len(),
{
    if logs.len() > 0 {
        let prev_logs = logs.drop_last();
        assert forall|i: int, j: int| 0 <= i < j < prev_logs.len() implies text_lt(
            prev_logs[i].file@,
            prev_logs[j].file@,
        ) by {
            assert(prev_logs[i] == logs[i] && prev_logs[j] == logs[j]);
        }
        lemma_files_of_ascending(prev_logs, id);
        let prev = files_of(prev_logs, id);
        let r = files_of(logs, id);
        assert forall|a: int| 0 <= a < r.len() implies exists|j: int|
            0 <= j < logs.len() && #[trigger] r[a] == logs[j].file@ by {
            if a < prev.len() {
                let j = choose|j: int| 0 <= j < prev_logs.len() && #[trigger] prev[a] == prev_logs[j].file@;
                assert(r[a] == logs[j].file@);
            } else {
                assert(r[a] == logs[logs.len() - 1].file@);
            }
        }
        assert forall|a: int, b: int| 0 <= a < b < r.len() implies text_lt(r[a], r[b]) by {
            if b >= prev.len() {
                let j = choose|j: int| 0 <= j < prev_logs.len() && #[trigger] prev[a] == prev_logs[j].file@;
                assert(prev_logs[j] == logs[j]);
            }
        }
    }
}

/// Whether the logs come in strictly ascending order of file name.
pub fn logs_in_name_order(logs: &Vec<LogEvents>) -> (r: bool)
    ensures
        r == names_ascending(logs@),
{
    let mut i: usize = 0;
    while i < logs.len()
        invariant
            i <= logs.len(),
            forall|a: int, b: int| 0 <= a < b < logs.len() && a < i ==> text_lt(logs@[a].file@, logs@[b].file@),
        decreases logs.len() - i,
    {
        let mut j: usize = i + 1;
        while j < logs.len()
            invariant
                i < logs.len(),
                i + 1 <= j <= logs.len(),
                forall|a: int, b: int| 0 <= a < b < logs.len() && a < i ==> text_lt(logs@[a].file@, logs@[b].file@),
                forall|b: int| i < b < j ==> text_lt(logs@[i as int].file@, logs@[b].file@),
            decreases logs.len() - j,
        {
            if !text_less(logs[i].file.as_str(), logs[j].file.as_str()) {
                return false;
            }
            j = j + 1;
        }
        i = i + 1;
    }
    true
}

/// Builds the index of the active logs, given file after file in ascending
/// name order, which is chronological order.
pub fn build_index(logs: &Vec<LogEvents>, rebuilt: Timestamp) -> (r: Index)
    requires
        logs_wf(logs@),
        names_ascending(logs@),
    ensures
        index_view(r.tasks@) == index_of(logs@),
        forall|k: int| 0 <= k < r.tasks.len() ==> texts_ascending(#[trigger] index_view(r.tasks@)[k].files),
        r.rebuilt == rebuilt,
{
    let mut entries: Vec<TaskIndex> = Vec::new();
    let mut k: usize = 0;
    proof {
        assert(logs@.take(0) =~= Seq::<LogEvents>::empty());
        assert(index_view(entries@) =~= index_info(flat(logs@.take(0))));
    }
    while k < logs.len()
        invariant
            k <= logs.len(),
            logs_wf(logs@),
            index_view(entries@) == index_info(flat(logs@.take(k as int))),
            entries_unique(index_view(entries@)),
            no_files(index_view(entries@)),
        decreases logs.len() - k,
    {
        let log = &logs[k];
        let ghost base = flat(logs@.take(k as int));
        proof {
            assert(base + log.events@.take(0) =~= base);
        }
        let mut j: usize = 0;
        while j < log.events.len()
            invariant
                k < logs.len(),
                log == logs@[k as int],
                logs_wf(logs@),
                j <= log.events.len(),
                index_view(entries@) == index_info(base + log.events@.take(j as int)),
                entries_unique(index_view(entries@)),
                no_files(index_view(entries@)),
            decreases log.events.len() - j,
        {
            proof {
                assert(all_wf(logs@[k as int].events@));
                assert(log.events@[j as int].wf());
            }
            note_event(&mut entries, &log.events[j]);
            proof {
                assert((base + log.events@.take(j + 1)).drop_last() =~= base + log.events@.take(j as int));
            }
            j = j + 1;
        }
        proof {
            assert(logs@.take(k + 1).drop_last() =~= logs@.take(k as int));
            assert(log.events@.take(j as int) =~= log.events@);
        }
        k = k + 1;
    }
    proof {
        assert(logs@.take(logs.len() as int) =~= logs@);
    }
    let ghost info = index_view(entries@);
    let mut out: Vec<TaskIndex> = Vec::new();
    let mut i: usize = 0;
    while i < entries.len()
        invariant
            i <= entries.len(),
            info == index_view(entries@),
            info == index_info(flat(logs@)),
            out.len() == i,
            forall|m: int| 0 <= m < i ==> (#[trigger] out@[m])@ == index_of(logs@)[m],
        decreases entries.len() - i,
    {
        let x = &entries[i];
        let y = TaskIndex {
            id: x.id.clone(),
            status: x.status,
            created: x.created.clone(),
            updated: x.updated.clone(),
            completed: copy_opt_text(&x.completed),
            files: files_for(logs, &x.id),
            archived: copy_opt_text(&x.archived),
        };
        out.push(y);
        i = i + 1;
    }
    proof {
        assert(index_view(out@) =~= index_of(logs@));
        assert forall|k: int| 0 <= k < out.len() implies texts_ascending(#[trigger] index_view(out@)[k].files) by {
            lemma_files_of_ascending(logs@, index_view(out@)[k].id);
        }
    }
    Index { tasks: out, rebuilt }
}

} // verus!
