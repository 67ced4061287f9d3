//! Looking tasks up, and choosing the tasks of a listing.

use vstd::prelude::*;
use crate::state::{tasks_view, Task, TaskStatus, TaskView};
use crate::text::{opt_view, text_is, texts_contain, texts_view};
use crate::time::{ts_before, Timestamp};

verus! {

/// The criteria of a listing; an absent criterion admits every task.
pub struct ListFilter {
    /// `open` or `complete` select by status; anything else admits all.
    pub status: Option<String>,
    pub assignee: Option<String>,
    pub tag: Option<String>,
    pub priority: Option<String>,
}

/// Whether a task meets every criterion of a listing.
pub open spec fn listed(t: TaskView, f: ListFilter) -> bool {
    &&& match opt_view(f.status) {
        Some(s) => if s == "open"@ {
            t.status == TaskStatus::Open
        } else if s == "complete"@ {
            t.status == TaskStatus::Complete
        } else {
            true
        },
        None => true,
    }
    &&& match opt_view(f.assignee) {
        Some(a) => t.assignee == Some(a),
        None => true,
    }
    &&& match opt_view(f.tag) {
        Some(g) => t.tags.contains(g),
        None => true,
    }
    &&& match opt_view(f.priority) {
        Some(p) => t.priority == Some(p),
        None => true,
    }
}

/// The positions of the listed tasks, each once, earliest creation first.
pub open spec fn is_listing(tasks: Seq<TaskView>, f: ListFilter, sel: Seq<usize>) -> bool {
    &&& forall|k: int| 0 <= k < sel.len() ==> sel[k] < tasks.len() && listed(tasks[sel[k] as int], f)
    &&& forall|k: int, m: int| 0 <= k < m < sel.len() ==> sel[k] != sel[m]
    &&& forall|i: int|
        0 <= i < tasks.len() && listed(#[trigger] tasks[i], f) ==> exists|w: int| 0 <= w < sel.len() && sel[w] == i
    &&& forall|k: int, m: int|
        0 <= k < m < sel.len() ==> !ts_before(tasks[sel[m] as int].created, tasks[sel[k] as int].created)
}

fn same_opt(a: &Option<String>, b: &String) -> (r: bool)
    ensures
        r == (opt_view(*a) == Some(b@)),
{
    match a {
        Some(x) => *x == *b,
        None => false,
    }
}

/// Whether a task meets every criterion of a listing.
pub fn is_listed(t: &Task, f: &ListFilter) -> (r: bool)
    ensures
        r == listed(t@, *f),
{
    let status_ok = match &f.status {
        Some(s) => if text_is(s.as_str(), "open") {
            t.status == TaskStatus::Open
        } else if text_is(s.as_str(), "complete") {
            t.status == TaskStatus::Complete
        } else {
            true
        },
        None => true,
    };
    let assignee_ok = match &f.assignee {
        Some(a) => same_opt(&t.assignee, a),
        None => true,
    };
    let tag_ok = match &f.tag {
        Some(g) => texts_contain(&t.tags, g),
        None => true,
    };
    let priority_ok = match &f.priority {
        Some(p) => same_opt(&t.priority, p),
        None => true,
    };
    status_ok && assignee_ok && tag_ok && priority_ok
}

/// The positions of the tasks that a listing shows, earliest creation first.
pub fn list_tasks(tasks: &Vec<Task>, f: &ListFilter) -> (r: Vec<usize>)
    ensures
        is_listing(tasks_view(tasks@), *f, r@),
{
    let ghost tv = tasks_view(tasks@);
    let mut sel: Vec<usize> = Vec::new();
    let mut i: usize = 0;
    while i < tasks.len()
        invariant
            i <= tasks.len(),
            tv == tasks_view(tasks@),
            forall|k: int| 0 <= k < sel.len() ==> sel@[k] < i && listed(tv[sel@[k] as int], *f),
            forall|k: int, m: int| 0 <= k < m < sel.len() ==> sel@[k] != sel@[m],
            forall|j: int|
                0 <= j < i && listed(#[trigger] tv[j], *f) ==> exists|w: int| 0 <= w < sel.len() && sel@[w] == j,
            forall|k: int, m: int|
                0 <= k < m < sel.len() ==> !ts_before(tv[sel@[m] as int].created, tv[sel@[k] as int].created),
        decreases tasks.len() - i,
    {
        let t = &tasks[i];
        if is_listed(t, f) {
            let c = t.created;
            let mut p: usize = 0;
            let mut stop = false;
            while p < sel.len() && !stop
                invariant
                    i < tasks.len(),
                    tv == tasks_view(tasks@),
                    tv[i as int].created == c,
                    p <= sel.len(),
                    forall|k: int| 0 <= k < sel.len() ==> sel@[k] < i && listed(tv[sel@[k] as int], *f),
                    forall|k: int| 0 <= k < p ==> !ts_before(c, tv[sel@[k] as int].created),
                    stop ==> p < sel.len() && ts_before(c, tv[sel@[p as int] as int].created),
                decreases sel.len() - p, if stop { 0int } else { 1int },
            {
                let q = sel[p];
                if c.before(&tasks[q].created) {
                    stop = true;
                } else {
                    p = p + 1;
                }
            }
            let ghost prev = sel@;
            sel.insert(p, i);
            proof {
                assert(sel@ == prev.insert(p as int, i));
                assert forall|k: int, m: int| 0 <= k < m < sel.len() implies !ts_before(
                    tv[sel@[m] as int].created,
                    tv[sel@[k] as int].created,
                ) by {
                    if k < p && m == p {
                    } else if k == p && m > p {
                        assert(sel@[m] == prev[m - 1]);
                        assert(ts_before(c, tv[prev[p as int] as int].created));
                        if m - 1 > p {
                            assert(!ts_before(tv[prev[m - 1] as int].created, tv[prev[p as int] as int].created));
                        }
                    } else if k < p && m > p {
                        assert(sel@[k] == prev[k]);
                        assert(sel@[m] == prev[m - 1]);
                    } else if k > p {
                        assert(sel@[k] == prev[k - 1]);
                        assert(sel@[m] == prev[m - 1]);
                    } else {
                        assert(sel@[k] == prev[k]);
                        assert(sel@[m] == prev[m]);
                    }
                }
                assert forall|j: int| 0 <= j < i + 1 && listed(#[trigger] tv[j], *f) implies exists|w: int|
                    0 <= w < sel.len() && sel@[w] == j by {
                    if j < i {
                        let w = choose|w: int| 0 <= w < prev.len() && prev[w] == j;
                        if w < p {
                            assert(sel@[w] == j);
                        } else {
                            assert(sel@[w + 1] == j);
                        }
                    } else {
                        assert(sel@[p as int] == i);
                    }
                }
            }
        }
        i = i + 1;
    }
    sel
}

/// The position of the task with this id, if there is one.
pub fn find_task(tasks: &Vec<Task>, id: &str) -> (r: Option<usize>)
    ensures
        r matches Some(i) ==> i < tasks.len() && tasks@[i as int].id@ == id@,
        r is None ==> forall|j: int| 0 <= j < tasks.len() ==> tasks@[j].id@ != id@,
{
    let mut i: usize = 0;
    while i < tasks.len()
        invariant
            i <= tasks.len(),
            forall|j: int| 0 <= j < i ==> tasks@[j].id@ != id@,
        decreases tasks.len() - i,
    {
        if text_is(tasks[i].id.as_str(), id) {
            return Some(i);
        }
        i = i + 1;
    }
    None
}

} // verus!
