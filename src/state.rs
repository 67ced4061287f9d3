//! Tasks, and their materialization by replaying events in order.

use vstd::prelude::*;
use crate::event::{Event, Operation};
use crate::text::{
    copy_opt_text, copy_opt_texts, copy_texts, opt_view, text_is, texts_contain, texts_view,
    texts_without,
};
use crate::time::Timestamp;

verus! {

#[derive(Clone, Copy, Debug, PartialEq, Eq, Structural)]
pub enum TaskStatus {
    Open,
    Complete,
}

/// A note left on a task.
#[derive(Clone, Debug)]
pub struct Comment {
    pub ts: Timestamp,
    pub by: String,
    pub body: String,
    pub reference: Option<String>,
}

pub struct CommentView {
    pub ts: Timestamp,
    pub by: Seq<char>,
    pub body: Seq<char>,
    pub reference: Option<Seq<char>>,
}

impl View for Comment {
    type V = CommentView;

    open spec fn view(&self) -> CommentView {
        CommentView { ts: self.ts, by: self.by@, body: self.body@, reference: opt_view(self.reference) }
    }
}

/// The current record of a task, derived from its events.
#[derive(Clone, Debug)]
pub struct Task {
    pub id: String,
    pub title: String,
    pub description: Option<String>,
    pub status: TaskStatus,
    pub priority: Option<String>,
    pub tags: Vec<String>,
    pub assignee: Option<String>,
    pub created: Timestamp,
    pub created_by: String,
    pub created_branch: String,
    pub updated: Timestamp,
    pub completed: Option<Timestamp>,
    pub resolution: Option<String>,
    pub parent: Option<String>,
    pub blocks: Vec<String>,
    pub blocked_by: Vec<String>,
    pub comments: Vec<Comment>,
    pub archived: Option<String>,
}

pub struct TaskView {
    pub id: Seq<char>,
    pub title: Seq<char>,
    pub description: Option<Seq<char>>,
    pub status: TaskStatus,
    pub priority: Option<Seq<char>>,
    pub tags: Seq<Seq<char>>,
    pub assignee: Option<Seq<char>>,
    pub created: Timestamp,
    pub created_by: Seq<char>,
    pub created_branch: Seq<char>,
    pub updated: Timestamp,
    pub completed: Option<Timestamp>,
    pub resolution: Option<Seq<char>>,
    pub parent: Option<Seq<char>>,
    pub blocks: Seq<Seq<char>>,
    pub blocked_by: Seq<Seq<char>>,
    pub comments: Seq<CommentView>,
    pub archived: Option<Seq<char>>,
}

impl View for Task {
    type V = TaskView;

    open spec fn view(&self) -> TaskView {
        TaskView {
            id: self.id@,
            title: self.title@,
            description: opt_view(self.description),
            status: self.status,
            priority: opt_view(self.priority),
            tags: texts_view(self.tags),
            assignee: opt_view(self.assignee),
            created: self.created,
            created_by: self.created_by@,
            created_branch: self.created_branch@,
            updated: self.updated,
            completed: self.completed,
            resolution: opt_view(self.resolution),
            parent: opt_view(self.parent),
            blocks: texts_view(self.blocks),
            blocked_by: texts_view(self.blocked_by),
            comments: self.comments@.map_values(|c: Comment| c@),
            archived: opt_view(self.archived),
        }
    }
}

/// The views of a sequence of tasks.
pub open spec fn tasks_view(tasks: Seq<Task>) -> Seq<TaskView> {
    tasks.map_values(|t: Task| t@)
}

/// No two tasks share an id.
pub open spec fn ids_unique(tasks: Seq<TaskView>) -> bool {
    forall|i: int, j: int|
        0 <= i < tasks.len() && 0 <= j < tasks.len() && i != j ==> tasks[i].id != tasks[j].id
}

/// The position of the task with this id, if there is one.
pub open spec fn find_task(tasks: Seq<TaskView>, id: Seq<char>) -> Option<int> {
    if exists|i: int| 0 <= i < tasks.len() && tasks[i].id == id {
        Some(choose|i: int| 0 <= i < tasks.len() && tasks[i].id == id)
    } else {
        None
    }
}

pub open spec fn list_or_empty(l: Option<Seq<Seq<char>>>) -> Seq<Seq<char>> {
    match l {
        Some(l) => l,
        None => Seq::empty(),
    }
}

pub open spec fn text_or(t: Option<Seq<char>>, fallback: Seq<char>) -> Seq<char> {
    match t {
        Some(t) => t,
        None => fallback,
    }
}

/// The task that a Create event makes.
pub open spec fn created_task(e: Event) -> TaskView {
    let d = e.d@;
    TaskView {
        id: e.id@,
        title: text_or(d.title, Seq::empty()),
        description: d.description,
        status: TaskStatus::Open,
        priority: d.priority,
        tags: list_or_empty(d.tags),
        assignee: d.assignee,
        created: e.ts,
        created_by: e.by@,
        created_branch: e.branch@,
        updated: e.ts,
        completed: None,
        resolution: None,
        parent: d.parent,
        blocks: list_or_empty(d.blocks),
        blocked_by: list_or_empty(d.blocked_by),
        comments: Seq::empty(),
        archived: None,
    }
}

/// `l` with `x` added at the end unless it holds `x` already.
pub open spec fn with_member(l: Seq<Seq<char>>, x: Seq<char>) -> Seq<Seq<char>> {
    if l.contains(x) {
        l
    } else {
        l.push(x)
    }
}

/// `l` without any occurrence of `x`.
pub open spec fn without_member(l: Seq<Seq<char>>, x: Seq<char>) -> Seq<Seq<char>> {
    l.filter(|y: Seq<char>| y != x)
}

/// What a Link event does to a task's relations.
pub open spec fn linked(t: TaskView, rel: Seq<char>, target: Seq<char>) -> TaskView {
    if rel == "blocks"@ {
        TaskView { blocks: with_member(t.blocks, target), ..t }
    } else if rel == "blocked_by"@ {
        TaskView { blocked_by: with_member(t.blocked_by, target), ..t }
    } else if rel == "parent"@ {
        TaskView { parent: Some(target), ..t }
    } else {
        t
    }
}

/// What an Unlink event does to a task's relations.
pub open spec fn unlinked(t: TaskView, rel: Seq<char>, target: Seq<char>) -> TaskView {
    if rel == "blocks"@ {
        TaskView { blocks: without_member(t.blocks, target), ..t }
    } else if rel == "blocked_by"@ {
        TaskView { blocked_by: without_member(t.blocked_by, target), ..t }
    } else if rel == "parent"@ {
        if t.parent == Some(target) {
            TaskView { parent: None, ..t }
        } else {
            t
        }
    } else {
        t
    }
}

/// What an event other than Create does to an existing task.
pub open spec fn touched(t: TaskView, e: Event) -> TaskView {
    let d = e.d@;
    let changed = match e.op {
        Operation::Update => TaskView {
            title: text_or(d.title, t.title),
            description: if d.description is Some {
                d.description
            } else {
                t.description
            },
            priority: if d.priority is Some {
                d.priority
            } else {
                t.priority
            },
            tags: match d.tags {
                Some(l) => l,
                None => t.tags,
            },
            ..t
        },
        Operation::Assign => TaskView { assignee: d.to, ..t },
        Operation::Comment => TaskView {
            comments: t.comments.push(
                CommentView {
                    ts: e.ts,
                    by: e.by@,
                    body: text_or(d.body, Seq::empty()),
                    reference: d.reference,
                },
            ),
            ..t
        },
        Operation::Link => match (d.rel, d.target) {
            (Some(rel), Some(target)) => linked(t, rel, target),
            _ => t,
        },
        Operation::Unlink => match (d.rel, d.target) {
            (Some(rel), Some(target)) => unlinked(t, rel, target),
            _ => t,
        },
        Operation::Complete => TaskView {
            status: TaskStatus::Complete,
            completed: Some(e.ts),
            resolution: Some(text_or(d.resolution, "done"@)),
            ..t
        },
        Operation::Reopen => TaskView {
            status: TaskStatus::Open,
            completed: None,
            resolution: None,
            ..t
        },
        Operation::Archive => TaskView { archived: d.reference, ..t },
        Operation::Create => t,
    };
    TaskView { updated: e.ts, ..changed }
}

/// The tasks after one event: Create inserts or replaces the task with its
/// id; any other operation changes the task with its id, and does nothing
/// when there is none.
pub open spec fn apply(tasks: Seq<TaskView>, e: Event) -> Seq<TaskView> {
    match find_task(tasks, e.id@) {
        Some(i) => if e.op is Create {
            tasks.update(i, created_task(e))
        } else {
            tasks.update(i, touched(tasks[i], e))
        },
        None => if e.op is Create {
            tasks.push(created_task(e))
        } else {
            tasks
        },
    }
}

/// The tasks after replaying a sequence of events in order.
pub open spec fn replay(events: Seq<Event>) -> Seq<TaskView>
    decreases events.len(),
{
    if events.len() == 0 {
        Seq::empty()
    } else {
        apply(replay(events.drop_last()), events.last())
    }
}

/// The tasks after applying a sequence of events in order to `tasks`.
pub open spec fn apply_all(tasks: Seq<TaskView>, events: Seq<Event>) -> Seq<TaskView>
    decreases events.len(),
{
    if events.len() == 0 {
        tasks
    } else {
        apply(apply_all(tasks, events.drop_last()), events.last())
    }
}

/// Replay is applying the events to no tasks at all.
pub proof fn lemma_replay_is_apply_all(events: Seq<Event>)
    ensures
        replay(events) == apply_all(Seq::empty(), events),
    decreases events.len(),
{
    if events.len() > 0 {
        lemma_replay_is_apply_all(events.drop_last());
    }
}

/// A materialized snapshot: the tasks, and the instant it was computed.
#[derive(Clone, Debug)]
pub struct State {
    pub tasks: Vec<Task>,
    pub rebuilt: Timestamp,
}

pub proof fn lemma_find_unique(tasks: Seq<TaskView>, i: int)
    requires
        ids_unique(tasks),
        0 <= i < tasks.len(),
    ensures
        find_task(tasks, tasks[i].id) == Some(i),
{
}

pub proof fn lemma_apply_unique(tasks: Seq<TaskView>, e: Event)
    requires
        ids_unique(tasks),
    ensures
        ids_unique(apply(tasks, e)),
{
    let r = apply(tasks, e);
    match find_task(tasks, e.id@) {
        Some(i) => {
            assert forall|a: int, b: int|
                0 <= a < r.len() && 0 <= b < r.len() && a != b implies r[a].id != r[b].id by {
                assert(r[i].id == tasks[i].id);
            }
        },
        None => {},
    }
}

pub proof fn lemma_replay_unique(events: Seq<Event>)
    ensures
        ids_unique(replay(events)),
    decreases events.len(),
{
    if events.len() > 0 {
        lemma_replay_unique(events.drop_last());
        lemma_apply_unique(replay(events.drop_last()), events.last());
    }
}

/// The task that a Create event makes.
fn new_task(e: &Event) -> (r: Task)
    requires
        e.op is Create,
    ensures
        r@ == created_task(*e),
{
    let d = &e.d;
    let t = Task {
        id: e.id.clone(),
        title: match &d.title {
            Some(s) => s.clone(),
            None => String::new(),
        },
        description: copy_opt_text(&d.description),
        status: TaskStatus::Open,
        priority: copy_opt_text(&d.priority),
        tags: match &d.tags {
            Some(l) => copy_texts(l),
            None => Vec::new(),
        },
        assignee: copy_opt_text(&d.assignee),
        created: e.ts,
        created_by: e.by.clone(),
        created_branch: e.branch.clone(),
        updated: e.ts,
        completed: None,
        resolution: None,
        parent: copy_opt_text(&d.parent),
        blocks: match &d.blocks {
            Some(l) => copy_texts(l),
            None => Vec::new(),
        },
        blocked_by: match &d.blocked_by {
            Some(l) => copy_texts(l),
            None => Vec::new(),
        },
        comments: Vec::new(),
        archived: None,
    };
    proof {
        assert(t@.tags == created_task(*e).tags);
        assert(t@.blocks == created_task(*e).blocks);
        assert(t@.blocked_by == created_task(*e).blocked_by);
        assert(t@.comments =~= Seq::<crate::state::CommentView>::empty());
    }
    t
}

/// Adds `x` to the end of `l` unless `l` holds it already.
fn add_member(l: &mut Vec<String>, x: &String)
    ensures
        texts_view(*final(l)) == with_member(texts_view(*old(l)), x@),
{
    if !texts_contain(l, x) {
        l.push(x.clone());
        proof {
            assert(texts_view(*l) =~= texts_view(*old(l)).push(x@));
        }
    }
}

/// What a Link event does to a task.
fn link(t: &mut Task, rel: &String, target: &String)
    ensures
        final(t)@ == linked(old(t)@, rel@, target@),
{
    if text_is(rel.as_str(), "blocks") {
        add_member(&mut t.blocks, target);
    } else if text_is(rel.as_str(), "blocked_by") {
        add_member(&mut t.blocked_by, target);
    } else if text_is(rel.as_str(), "parent") {
        t.parent = Some(target.clone());
    }
}

/// What an Unlink event does to a task.
fn unlink(t: &mut Task, rel: &String, target: &String)
    ensures
        final(t)@ == unlinked(old(t)@, rel@, target@),
{
    if text_is(rel.as_str(), "blocks") {
        t.blocks = texts_without(&t.blocks, target.as_str());
    } else if text_is(rel.as_str(), "blocked_by") {
        t.blocked_by = texts_without(&t.blocked_by, target.as_str());
    } else if text_is(rel.as_str(), "parent") {
        let same = match &t.parent {
            Some(p) => *p == *target,
            None => false,
        };
        if same {
            t.parent = None;
        }
    }
}

/// What an event other than Create does to an existing task.
fn touch(t: &mut Task, e: &Event)
    requires
        !(e.op is Create),
    ensures
        final(t)@ == touched(old(t)@, *e),
{
    let d = &e.d;
    match e.op {
        Operation::Update => {
            match &d.title {
                Some(s) => {
                    t.title = s.clone();
                },
                None => {},
            }
            if d.description.is_some() {
                t.description = copy_opt_text(&d.description);
            }
            if d.priority.is_some() {
                t.priority = copy_opt_text(&d.priority);
            }
            match &d.tags {
                Some(l) => {
                    t.tags = copy_texts(l);
                },
                None => {},
            }
        },
        Operation::Assign => {
            t.assignee = copy_opt_text(&d.to);
        },
        Operation::Comment => {
            let c = Comment {
                ts: e.ts,
                by: e.by.clone(),
                body: match &d.body {
                    Some(s) => s.clone(),
                    None => String::new(),
                },
                reference: copy_opt_text(&d.reference),
            };
            let ghost prev = t.comments@;
            t.comments.push(c);
            proof {
                assert(t.comments@.map_values(|c: Comment| c@) =~= prev.map_values(|c: Comment| c@).push(c@));
            }
        },
        Operation::Link => {
            match (&d.rel, &d.target) {
                (Some(rel), Some(target)) => link(t, rel, target),
                _ => {},
            }
        },
        Operation::Unlink => {
            match (&d.rel, &d.target) {
                (Some(rel), Some(target)) => unlink(t, rel, target),
                _ => {},
            }
        },
        Operation::Complete => {
            t.status = TaskStatus::Complete;
            t.completed = Some(e.ts);
            t.resolution = match &d.resolution {
                Some(s) => Some(s.clone()),
                None => Some("done".to_owned()),
            };
        },
        Operation::Reopen => {
            t.status = TaskStatus::Open;
            t.completed = None;
            t.resolution = None;
        },
        Operation::Archive => {
            t.archived = copy_opt_text(&d.reference);
        },
        Operation::Create => {},
    }
    t.updated = e.ts;
}

/// A task with nothing in it, held while its place is being rewritten.
pub(crate) fn blank_task() -> (r: Task) {
    Task {
        id: String::new(),
        title: String::new(),
        description: None,
        status: TaskStatus::Open,
        priority: None,
        tags: Vec::new(),
        assignee: None,
        created: Timestamp { secs: 0, nanos: 0 },
        created_by: String::new(),
        created_branch: String::new(),
        updated: Timestamp { secs: 0, nanos: 0 },
        completed: None,
        resolution: None,
        parent: None,
        blocks: Vec::new(),
        blocked_by: Vec::new(),
        comments: Vec::new(),
        archived: None,
    }
}

/// Applies one event to the tasks.
pub fn apply_event(tasks: &mut Vec<Task>, e: &Event)
    requires
        ids_unique(tasks_view(old(tasks)@)),
    ensures
        tasks_view(final(tasks)@) == apply(tasks_view(old(tasks)@), *e),
        ids_unique(tasks_view(final(tasks)@)),
{
    let ghost before = tasks_view(tasks@);
    proof {
        lemma_apply_unique(before, *e);
    }
    match crate::query::find_task(tasks, e.id.as_str()) {
        Some(i) => {
            proof {
                lemma_find_unique(before, i as int);
            }
            if e.op == Operation::Create {
                let t = new_task(e);
                tasks.set(i, t);
                proof {
                    assert(tasks_view(tasks@) =~= before.update(i as int, created_task(*e)));
                }
            } else {
                let mut t = blank_task();
                tasks.set_and_swap(i, &mut t);
                touch(&mut t, e);
                tasks.set_and_swap(i, &mut t);
                proof {
                    assert(tasks_view(tasks@) =~= before.update(i as int, touched(before[i as int], *e)));
                }
            }
        },
        None => {
            proof {
                assert(find_task(before, e.id@) is None);
            }
            if e.op == Operation::Create {
                let t = new_task(e);
                tasks.push(t);
                proof {
                    assert(tasks_view(tasks@) =~= before.push(created_task(*e)));
                }
            }
        },
    }
}

/// Applies events in order to the tasks.
pub fn apply_events(tasks: &mut Vec<Task>, events: &Vec<Event>)
    requires
        ids_unique(tasks_view(old(tasks)@)),
    ensures
        tasks_view(final(tasks)@) == apply_all(tasks_view(old(tasks)@), events@),
        ids_unique(tasks_view(final(tasks)@)),
{
    let ghost start = tasks_view(tasks@);
    let mut i: usize = 0;
    proof {
        assert(events@.take(0) =~= Seq::<Event>::empty());
    }
    while i < events.len()
        invariant
            i <= events.len(),
            tasks_view(tasks@) == apply_all(start, events@.take(i as int)),
            ids_unique(tasks_view(tasks@)),
        decreases events.len() - i,
    {
        apply_event(tasks, &events[i]);
        i = i + 1;
        proof {
            assert(events@.take(i as int).drop_last() =~= events@.take(i - 1));
        }
    }
    proof {
        assert(events@.take(events.len() as int) =~= events@);
    }
}

/// Replays `archived` and then `active` in order, into a snapshot stamped
/// `rebuilt`.
pub fn materialize(archived: &Vec<Event>, active: &Vec<Event>, rebuilt: Timestamp) -> (r: State)
    ensures
        tasks_view(r.tasks@) == replay(archived@ + active@),
        ids_unique(tasks_view(r.tasks@)),
        r.rebuilt == rebuilt,
{
    let tasks = replay_all(archived, active);
    State { tasks, rebuilt }
}

/// Replays `archived` and then `active` in order: older history first, then
/// the active log.
pub fn replay_all(archived: &Vec<Event>, active: &Vec<Event>) -> (r: Vec<Task>)
    ensures
        tasks_view(r@) == replay(archived@ + active@),
        ids_unique(tasks_view(r@)),
{
    let ghost all = archived@ + active@;
    let mut tasks: Vec<Task> = Vec::new();
    proof {
        assert(tasks_view(tasks@) =~= replay(all.take(0)));
    }
    let mut i: usize = 0;
    while i < archived.len()
        invariant
            i <= archived.len(),
            all == archived@ + active@,
            tasks_view(tasks@) == replay(all.take(i as int)),
            ids_unique(tasks_view(tasks@)),
        decreases archived.len() - i,
    {
        apply_event(&mut tasks, &archived[i]);
        i = i + 1;
        proof {
            assert(all.take(i as int).drop_last() =~= all.take(i - 1));
        }
    }
    let mut j: usize = 0;
    while j < active.len()
        invariant
            i == archived.len(),
            j <= active.len(),
            all == archived@ + active@,
            tasks_view(tasks@) == replay(all.take(i + j)),
            ids_unique(tasks_view(tasks@)),
        decreases active.len() - j,
    {
        apply_event(&mut tasks, &active[j]);
        j = j + 1;
        proof {
            assert(all.take(i + j).drop_last() =~= all.take(i + j - 1));
            assert(all[i + j - 1] == active@[j - 1]);
        }
    }
    proof {
        assert(all.take(i + j) =~= all);
    }
    tasks
}

} // verus!
