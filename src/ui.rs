//! The state of an interactive task browser: which tasks it shows, which one
//! is selected, and which pane has the focus.

use vstd::prelude::*;
use crate::state::{blank_task, tasks_view, Task, TaskStatus, TaskView};
use crate::text::{
    lemma_text_lt_irreflexive, lemma_text_lt_total, lemma_text_lt_transitive, text_less, text_lt,
};
use crate::time::ts_before;

verus! {

/// The pane that receives the keys.
#[derive(Clone, Copy, Debug, PartialEq, Eq, Structural)]
pub enum Focus {
    TaskList,
    Detail,
}

/// Which tasks the browser shows.
#[derive(Clone, Copy, Debug, PartialEq, Eq, Structural)]
pub enum StatusFilter {
    Open,
    Complete,
    All,
}

pub open spec fn filter_label(f: StatusFilter) -> Seq<char> {
    match f {
        StatusFilter::Open => "Open"@,
        StatusFilter::Complete => "Complete"@,
        StatusFilter::All => "All"@,
    }
}

pub open spec fn filter_admits(f: StatusFilter, s: TaskStatus) -> bool {
    match f {
        StatusFilter::Open => s == TaskStatus::Open,
        StatusFilter::Complete => s == TaskStatus::Complete,
        StatusFilter::All => true,
    }
}

impl StatusFilter {
    /// The filter's name as shown in the header.
    pub fn label(&self) -> (r: &'static str)
        ensures
            r@ == filter_label(*self),
    {
        match self {
            StatusFilter::Open => "Open",
            StatusFilter::Complete => "Complete",
            StatusFilter::All => "All",
        }
    }

    /// Whether a task with this status is shown.
    pub fn admits(&self, s: TaskStatus) -> (r: bool)
        ensures
            r == filter_admits(*self, s),
    {
        match self {
            StatusFilter::Open => s == TaskStatus::Open,
            StatusFilter::Complete => s == TaskStatus::Complete,
            StatusFilter::All => true,
        }
    }
}

/// The priority by which the browser orders a task: its own, or `p3`.
pub open spec fn rank_text(t: TaskView) -> Seq<char> {
    match t.priority {
        Some(p) => p,
        None => "p3"@,
    }
}

/// Whether the browser shows `x` strictly before `y`: by priority text,
/// then by creation.
pub open spec fn shown_before(x: TaskView, y: TaskView) -> bool {
    text_lt(rank_text(x), rank_text(y)) || (rank_text(x) == rank_text(y) && ts_before(x.created, y.created))
}

proof fn lemma_shown_before_transitive(x: TaskView, y: TaskView, z: TaskView)
    requires
        shown_before(x, y),
        shown_before(y, z),
    ensures
        shown_before(x, z),
{
    if text_lt(rank_text(x), rank_text(y)) && text_lt(rank_text(y), rank_text(z)) {
        lemma_text_lt_transitive(rank_text(x), rank_text(y), rank_text(z));
    }
}

proof fn lemma_shown_before_irreflexive(x: TaskView)
    ensures
        !shown_before(x, x),
{
    lemma_text_lt_irreflexive(rank_text(x));
}

/// The positions of the tasks that a filter admits, each once, in browser
/// order.
pub open spec fn is_browse_order(tasks: Seq<TaskView>, f: StatusFilter, order: Seq<usize>) -> bool {
    &&& forall|k: int| 0 <= k < order.len() ==> order[k] < tasks.len() && filter_admits(f, tasks[order[k] as int].status)
    &&& forall|k: int, m: int| 0 <= k < m < order.len() ==> order[k] != order[m]
    &&& forall|i: int|
        0 <= i < tasks.len() && filter_admits(f, (#[trigger] tasks[i]).status) ==> exists|w: int|
            0 <= w < order.len() && order[w] == i
    &&& forall|k: int, m: int|
        0 <= k < m < order.len() ==> !shown_before(tasks[order[m] as int], tasks[order[k] as int])
}

/// Whether the browser shows `a` strictly before `b`.
fn before_in_browser(a: &Task, b: &Task) -> (r: bool)
    ensures
        r == shown_before(a@, b@),
{
    let pa: &str = match &a.priority {
        Some(p) => p.as_str(),
        None => "p3",
    };
    let pb: &str = match &b.priority {
        Some(p) => p.as_str(),
        None => "p3",
    };
    assert(pa@ == rank_text(a@));
    assert(pb@ == rank_text(b@));
    if text_less(pa, pb) {
        true
    } else if text_less(pb, pa) {
        false
    } else {
        proof {
            if pa@ != pb@ {
                lemma_text_lt_total(pa@, pb@);
            }
        }
        a.created.before(&b.created)
    }
}

/// The positions of the tasks that a filter admits, in browser order.
fn browse_order(tasks: &Vec<Task>, f: StatusFilter) -> (r: Vec<usize>)
    ensures
        is_browse_order(tasks_view(tasks@), f, r@),
{
    let ghost tv = tasks_view(tasks@);
    let mut sel: Vec<usize> = Vec::new();
    let mut i: usize = 0;
    while i < tasks.len()
        invariant
            i <= tasks.len(),
            tv == tasks_view(tasks@),
            forall|k: int| 0 <= k < sel.len() ==> sel@[k] < i && filter_admits(f, tv[sel@[k] as int].status),
            forall|k: int, m: int| 0 <= k < m < sel.len() ==> sel@[k] != sel@[m],
            forall|j: int|
                0 <= j < i && filter_admits(f, (#[trigger] tv[j]).status) ==> exists|w: int|
                    0 <= w < sel.len() && sel@[w] == j,
            forall|k: int, m: int|
                0 <= k < m < sel.len() ==> !shown_before(tv[sel@[m] as int], tv[sel@[k] as int]),
        decreases tasks.len() - i,
    {
        if f.admits(tasks[i].status) {
            let mut p: usize = 0;
            let mut stop = false;
            while p < sel.len() && !stop
                invariant
                    i < tasks.len(),
                    tv == tasks_view(tasks@),
                    p <= sel.len(),
                    forall|k: int| 0 <= k < sel.len() ==> sel@[k] < i && filter_admits(f, tv[sel@[k] as int].status),
                    forall|k: int| 0 <= k < p ==> !shown_before(tv[i as int], tv[sel@[k] as int]),
                    stop ==> p < sel.len() && shown_before(tv[i as int], tv[sel@[p as int] as int]),
                decreases sel.len() - p, if stop { 0int } else { 1int },
            {
                if before_in_browser(&tasks[i], &tasks[sel[p]]) {
                    stop = true;
                } else {
                    p = p + 1;
                }
            }
            let ghost prev = sel@;
            let ghost c = tv[i as int];
            sel.insert(p, i);
            proof {
                assert(sel@ == prev.insert(p as int, i));
                assert forall|k: int, m: int| 0 <= k < m < sel.len() implies !shown_before(
                    tv[sel@[m] as int],
                    tv[sel@[k] as int],
                ) by {
                    if k < p && m == p {
                    } else if k == p && m > p {
                        assert(sel@[m] == prev[m - 1]);
                        let y = tv[prev[p as int] as int];
                        let z = tv[prev[m - 1] as int];
                        assert(shown_before(c, y));
                        if shown_before(z, c) {
                            lemma_shown_before_transitive(z, c, y);
                            if m - 1 == p {
                                lemma_shown_before_irreflexive(y);
                            }
                        }
                    } else if k < p && m > p {
                        assert(sel@[k] == prev[k]);
                        assert(sel@[m] == prev[m - 1]);
                    } else if k > p {
                        assert(sel@[k] == prev[k - 1]);
                        assert(sel@[m] == prev[m - 1]);
                    } else {
                        assert(sel@[k] == prev[k]);
                        assert(sel@[m] == prev[m]);
                    }
                }
                assert forall|j: int|
                    0 <= j < i + 1 && filter_admits(f, (#[trigger] tv[j]).status) implies exists|w: int|
                    0 <= w < sel.len() && sel@[w] == j by {
                    if j < i {
                        let w = choose|w: int| 0 <= w < prev.len() && prev[w] == j;
                        if w < p {
                            assert(sel@[w] == j);
                        } else {
                            assert(sel@[w + 1] == j);
                        }
                    } else {
                        assert(sel@[p as int] == i);
                    }
                }
            }
        }
        i = i + 1;
    }
    sel
}

/// The tasks at the given positions, in that order, moved out of `src`.
fn take_in_order(src: Vec<Task>, order: &Vec<usize>) -> (r: Vec<Task>)
    requires
        forall|k: int| 0 <= k < order.len() ==> order@[k] < src.len(),
        forall|k: int, m: int| 0 <= k < m < order.len() ==> order@[k] != order@[m],
    ensures
        r.len() == order.len(),
        forall|k: int| 0 <= k < order.len() ==> (#[trigger] r@[k])@ == tasks_view(src@)[order@[k] as int],
{
    let ghost orig = src@;
    let mut src = src;
    let mut out: Vec<Task> = Vec::new();
    let mut k: usize = 0;
    while k < order.len()
        invariant
            k <= order.len(),
            src.len() == orig.len(),
            forall|q: int| 0 <= q < order.len() ==> order@[q] < src.len(),
            forall|q: int, m: int| 0 <= q < m < order.len() ==> order@[q] != order@[m],
            forall|j: int|
                0 <= j < src.len() && (forall|q: int| 0 <= q < k ==> order@[q] != j) ==> src@[j] == orig[j],
            out.len() == k,
            forall|q: int| 0 <= q < k ==> (#[trigger] out@[q])@ == orig[order@[q] as int]@,
        decreases order.len() - k,
    {
        let p = order[k];
        let mut t = blank_task();
        proof {
            assert forall|q: int| 0 <= q < k implies order@[q] != p by {}
        }
        src.set_and_swap(p, &mut t);
        out.push(t);
        k = k + 1;
    }
    out
}

/// The browser: the tasks shown, in display order, and the cursor.
pub struct App {
    pub tasks: Vec<Task>,
    pub selected: usize,
    pub focus: Focus,
    pub show_detail: bool,
    pub status_filter: StatusFilter,
}

/// Whether `shown` holds the tasks of `all` that the filter admits, in
/// browser order.
pub open spec fn browses(all: Seq<TaskView>, f: StatusFilter, shown: Seq<Task>) -> bool {
    exists|order: Seq<usize>|
        is_browse_order(all, f, order) && shown.len() == order.len() && forall|k: int|
            0 <= k < order.len() ==> (#[trigger] shown[k])@ == all[order[k] as int]
}

/// The tasks of `all` that the filter admits, in browser order.
fn browse(all: Vec<Task>, f: StatusFilter) -> (r: Vec<Task>)
    ensures
        browses(tasks_view(all@), f, r@),
{
    let order = browse_order(&all, f);
    let ghost tv = tasks_view(all@);
    let r = take_in_order(all, &order);
    assert(is_browse_order(tv, f, order@));
    r
}

impl App {
    /// The cursor is on a task, or at 0 when there is none.
    pub open spec fn wf(&self) -> bool {
        self.selected == 0 || self.selected < self.tasks.len()
    }

    /// A browser over the open tasks among `tasks`, by priority (`p3` when
    /// unset) and then creation, with the cursor on the first and the focus
    /// on the list.
    pub fn new(tasks: Vec<Task>) -> (r: App)
        ensures
            browses(tasks_view(tasks@), StatusFilter::Open, r.tasks@),
            r.selected == 0,
            r.focus == Focus::TaskList,
            !r.show_detail,
            r.status_filter == StatusFilter::Open,
            r.wf(),
    {
        let shown = browse(tasks, StatusFilter::Open);
        App { tasks: shown, selected: 0, focus: Focus::TaskList, show_detail: false, status_filter: StatusFilter::Open }
    }

    /// Shows the tasks of `tasks` that the current filter admits, in browser
    /// order, keeping the cursor within them.
    pub fn reload_tasks(&mut self, tasks: Vec<Task>)
        ensures
            browses(tasks_view(tasks@), old(self).status_filter, final(self).tasks@),
            final(self).status_filter == old(self).status_filter,
            final(self).focus == old(self).focus,
            final(self).show_detail == old(self).show_detail,
            final(self).selected == (if old(self).selected >= final(self).tasks.len() && final(self).tasks.len() > 0 {
                (final(self).tasks.len() - 1) as usize
            } else {
                old(self).selected
            }),
    {
        self.tasks = browse(tasks, self.status_filter);
        if self.selected >= self.tasks.len() && self.tasks.len() > 0 {
            self.selected = self.tasks.len() - 1;
        }
    }
    /// The task under the cursor, if any.
    pub fn selected_task(&self) -> (r: Option<&Task>)
        ensures
            self.selected < self.tasks.len() ==> r == Some(&self.tasks@[self.selected as int]),
            self.selected >= self.tasks.len() ==> r is None,
    {
        if self.selected < self.tasks.len() {
            Some(&self.tasks[self.selected])
        } else {
            None
        }
    }

    /// Moves the cursor down one task, staying on the last.
    pub fn next_task(&mut self)
        requires
            old(self).wf(),
        ensures
            final(self).wf(),
            final(self).tasks == old(self).tasks,
            final(self).focus == old(self).focus,
            final(self).show_detail == old(self).show_detail,
            final(self).status_filter == old(self).status_filter,
            old(self).tasks.len() == 0 ==> final(self).selected == old(self).selected,
            old(self).tasks.len() > 0 ==> final(self).selected == (if old(self).selected + 1 < old(self).tasks.len() {
                old(self).selected + 1
            } else {
                old(self).tasks.len() - 1
            }),
    {
        if self.tasks.len() > 0 {
            let last = self.tasks.len() - 1;
            self.selected = if self.selected < last { self.selected + 1 } else { last };
        }
    }

    /// Moves the cursor up one task, staying on the first.
    pub fn previous_task(&mut self)
        requires
            old(self).wf(),
        ensures
            final(self).wf(),
            final(self).tasks == old(self).tasks,
            final(self).focus == old(self).focus,
            final(self).show_detail == old(self).show_detail,
            final(self).status_filter == old(self).status_filter,
            final(self).selected == (if old(self).selected > 0 { old(self).selected - 1 } else { 0 }),
    {
        self.selected = if self.selected > 0 { self.selected - 1 } else { 0 };
    }

    /// Moves the cursor to the first task.
    pub fn first_task(&mut self)
        ensures
            final(self).wf(),
            final(self).tasks == old(self).tasks,
            final(self).focus == old(self).focus,
            final(self).show_detail == old(self).show_detail,
            final(self).status_filter == old(self).status_filter,
            final(self).selected == 0,
    {
        self.selected = 0;
    }

    /// Moves the cursor to the last task, if there is one.
    pub fn last_task(&mut self)
        requires
            old(self).wf(),
        ensures
            final(self).wf(),
            final(self).tasks == old(self).tasks,
            final(self).focus == old(self).focus,
            final(self).show_detail == old(self).show_detail,
            final(self).status_filter == old(self).status_filter,
            old(self).tasks.len() > 0 ==> final(self).selected == old(self).tasks.len() - 1,
            old(self).tasks.len() == 0 ==> final(self).selected == old(self).selected,
    {
        if self.tasks.len() > 0 {
            self.selected = self.tasks.len() - 1;
        }
    }

    /// Moves the focus to the other pane.
    pub fn toggle_focus(&mut self)
        ensures
            final(self).tasks == old(self).tasks,
            final(self).selected == old(self).selected,
            final(self).show_detail == old(self).show_detail,
            final(self).status_filter == old(self).status_filter,
            final(self).focus == (if old(self).focus == Focus::TaskList {
                Focus::Detail
            } else {
                Focus::TaskList
            }),
    {
        self.focus = match self.focus {
            Focus::TaskList => Focus::Detail,
            Focus::Detail => Focus::TaskList,
        };
    }

    /// Shows or hides the detail pane.
    pub fn toggle_detail(&mut self)
        ensures
            final(self).tasks == old(self).tasks,
            final(self).selected == old(self).selected,
            final(self).focus == old(self).focus,
            final(self).status_filter == old(self).status_filter,
            final(self).show_detail == !old(self).show_detail,
    {
        self.show_detail = !self.show_detail;
    }
}

} // verus!
