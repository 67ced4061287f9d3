//! Choosing completed tasks for monthly rollups, and what archiving writes.

use vstd::prelude::*;
use crate::event::{all_wf, Event, Operation, Payload};
use crate::state::{
    apply, find_task, ids_unique, replay, tasks_view, Task, TaskStatus, TaskView,
};
use crate::text::{opt_view, text_is, texts_view};
use crate::time::{calendar_month, ts_before, Timestamp};

verus! {

/// Whether a task is due for archiving before the cutoff: complete, completed
/// strictly before the cutoff, and not archived yet.
pub open spec fn eligible(t: TaskView, cutoff: Timestamp) -> bool {
    &&& t.status == TaskStatus::Complete
    &&& t.completed matches Some(c) && ts_before(c, cutoff)
    &&& t.archived is None
}

/// The completion instant of a task that has one.
pub open spec fn completed_at(t: TaskView) -> Timestamp {
    t.completed->Some_0
}

/// Whether `a` completed no later than `b`.
pub open spec fn completed_no_later(a: TaskView, b: TaskView) -> bool {
    !ts_before(completed_at(b), completed_at(a))
}

/// Every completion instant can be written as a calendar month.
pub open spec fn completions_representable(tasks: Seq<TaskView>) -> bool {
    forall|i: int|
        0 <= i < tasks.len() ==> ((#[trigger] tasks[i]).completed matches Some(c) ==> c.representable())
}

/// The positions of the tasks due for archiving, oldest completion first,
/// each once.
pub open spec fn is_selection(tasks: Seq<TaskView>, cutoff: Timestamp, sel: Seq<usize>) -> bool {
    &&& forall|k: int| 0 <= k < sel.len() ==> sel[k] < tasks.len() && eligible(tasks[sel[k] as int], cutoff)
    &&& forall|k: int, m: int| 0 <= k < m < sel.len() ==> sel[k] != sel[m]
    &&& forall|i: int|
        0 <= i < tasks.len() && eligible(#[trigger] tasks[i], cutoff) ==> exists|w: int|
            0 <= w < sel.len() && sel[w] == i
    &&& forall|k: int, m: int|
        0 <= k < m < sel.len() ==> completed_no_later(tasks[sel[k] as int], tasks[sel[m] as int])
}

/// The positions of the tasks due for archiving before the cutoff, oldest
/// completion first.
pub fn select_due(tasks: &Vec<Task>, cutoff: Timestamp) -> (r: Vec<usize>)
    ensures
        is_selection(tasks_view(tasks@), cutoff, r@),
{
    let ghost tv = tasks_view(tasks@);
    let mut sel: Vec<usize> = Vec::new();
    let mut i: usize = 0;
    while i < tasks.len()
        invariant
            i <= tasks.len(),
            tv == tasks_view(tasks@),
            forall|k: int| 0 <= k < sel.len() ==> sel@[k] < i && eligible(tv[sel@[k] as int], cutoff),
            forall|k: int, m: int| 0 <= k < m < sel.len() ==> sel@[k] != sel@[m],
            forall|j: int|
                0 <= j < i && eligible(#[trigger] tv[j], cutoff) ==> exists|w: int|
                    0 <= w < sel.len() && sel@[w] == j,
            forall|k: int, m: int|
                0 <= k < m < sel.len() ==> completed_no_later(tv[sel@[k] as int], tv[sel@[m] as int]),
        decreases tasks.len() - i,
    {
        let t = &tasks[i];
        let due = match t.completed {
            Some(c) => t.status == TaskStatus::Complete && c.before(&cutoff) && t.archived.is_none(),
            None => false,
        };
        assert(due == eligible(tv[i as int], cutoff));
        if due {
            let c = match t.completed {
                Some(c) => c,
                None => Timestamp { secs: 0, nanos: 0 },
            };
            let mut p: usize = 0;
            let mut stop = false;
            while p < sel.len() && !stop
                invariant
                    i < tasks.len(),
                    tv == tasks_view(tasks@),
                    tv[i as int].completed == Some(c),
                    p <= sel.len(),
                    forall|k: int| 0 <= k < sel.len() ==> sel@[k] < i && eligible(tv[sel@[k] as int], cutoff),
                    forall|k: int| 0 <= k < p ==> !ts_before(c, completed_at(tv[sel@[k] as int])),
                    stop ==> p < sel.len() && ts_before(c, completed_at(tv[sel@[p as int] as int])),
                decreases sel.len() - p, if stop { 0int } else { 1int },
            {
                let q = sel[p];
                let cq = match tasks[q].completed {
                    Some(x) => x,
                    None => Timestamp { secs: 0, nanos: 0 },
                };
                if c.before(&cq) {
                    stop = true;
                } else {
                    p = p + 1;
                }
            }
            let ghost prev = sel@;
            sel.insert(p, i);
            proof {
                assert(sel@ == prev.insert(p as int, i));
                assert forall|k: int, m: int| 0 <= k < m < sel.len() implies completed_no_later(
                    tv[sel@[k] as int],
                    tv[sel@[m] as int],
                ) by {
                    if k < p && m == p {
                    } else if k == p && m > p {
                        assert(sel@[m] == prev[m - 1]);
                        assert(ts_before(c, completed_at(tv[prev[p as int] as int])));
                        if m - 1 > p {
                            assert(completed_no_later(tv[prev[p as int] as int], tv[prev[m - 1] as int]));
                        }
                    } else if k < p && m > p {
                        assert(sel@[k] == prev[k]);
                        assert(sel@[m] == prev[m - 1]);
                    } else if k > p {
                        assert(sel@[k] == prev[k - 1]);
                        assert(sel@[m] == prev[m - 1]);
                    } else {
                        assert(sel@[k] == prev[k]);
                        assert(sel@[m] == prev[m]);
                    }
                }
                assert forall|j: int| 0 <= j < i + 1 && eligible(#[trigger] tv[j], cutoff) implies exists|w: int|
                    0 <= w < sel.len() && sel@[w] == j by {
                    if j < i {
                        let w = choose|w: int| 0 <= w < prev.len() && prev[w] == j;
                        if w < p {
                            assert(sel@[w] == j);
                        } else {
                            assert(sel@[w + 1] == j);
                        }
                    } else {
                        assert(sel@[p as int] == i);
                    }
                }
            }
        }
        i = i + 1;
    }
    sel
}

/// Replaying well-formed events leaves only completion instants that can
/// be written as calendar months.
pub proof fn lemma_replay_completions(events: Seq<Event>)
    requires
        all_wf(events),
    ensures
        completions_representable(replay(events)),
    decreases events.len(),
{
    if events.len() > 0 {
        let prev = events.drop_last();
        assert forall|i: int| 0 <= i < prev.len() implies (#[trigger] prev[i]).wf() by {
            assert(prev[i] == events[i]);
        }
        lemma_replay_completions(prev);
        assert(events[events.len() - 1].wf());
    }
}

/// The calendar month of a task's completion.
pub open spec fn completion_month(t: TaskView) -> Seq<char> {
    calendar_month(completed_at(t).secs, completed_at(t).nanos)
}

/// The ids of the selected tasks that completed in `month`, in selection
/// order.
pub open spec fn ids_in_month(tasks: Seq<TaskView>, sel: Seq<usize>, month: Seq<char>) -> Seq<Seq<char>>
    decreases sel.len(),
{
    if sel.len() == 0 {
        Seq::empty()
    } else {
        let prev = ids_in_month(tasks, sel.drop_last(), month);
        if completion_month(tasks[sel.last() as int]) == month {
            prev.push(tasks[sel.last() as int].id)
        } else {
            prev
        }
    }
}

/// The positions of the events for `id`, in log order.
pub open spec fn positions_of(events: Seq<Event>, id: Seq<char>) -> Seq<usize>
    decreases events.len(),
{
    if events.len() == 0 {
        Seq::empty()
    } else {
        let prev = positions_of(events.drop_last(), id);
        if events.last().id@ == id {
            prev.push((events.len() - 1) as usize)
        } else {
            prev
        }
    }
}

/// The positions of every event for each id in turn.
pub open spec fn rollup_positions(events: Seq<Event>, ids: Seq<Seq<char>>) -> Seq<usize>
    decreases ids.len(),
{
    if ids.len() == 0 {
        Seq::empty()
    } else {
        rollup_positions(events, ids.drop_last()) + positions_of(events, ids.last())
    }
}

/// The tasks of one month's rollup, and the active-log events to copy there.
#[derive(Clone, Debug)]
pub struct MonthGroup {
    /// The month, `YYYY-MM`.
    pub month: String,
    /// The ids of its tasks, oldest completion first.
    pub ids: Vec<String>,
    /// Positions in the active log of every event for those tasks, task
    /// after task, each in log order.
    pub events: Vec<usize>,
}

/// What an archive run decides: the tasks it archives, the rollups it
/// appends to, and the Archive events it appends to today's log.
#[derive(Clone, Debug)]
pub struct ArchivePlan {
    pub selected: Vec<String>,
    pub groups: Vec<MonthGroup>,
    pub markers: Vec<Event>,
}

/// The author of the events that archiving writes.
pub open spec fn system_actor() -> Seq<char> {
    "@fabric"@
}

/// Whether the groups are those of the selection: one per month, each with
/// the selected tasks of that month in order and all their events.
pub open spec fn groups_of(
    tasks: Seq<TaskView>,
    sel: Seq<usize>,
    active: Seq<Event>,
    groups: Seq<MonthGroup>,
) -> bool {
    &&& forall|g: int, h: int| 0 <= g < h < groups.len() ==> groups[g].month@ != groups[h].month@
    &&& forall|g: int|
        0 <= g < groups.len() ==> texts_view(#[trigger] groups[g].ids) == ids_in_month(
            tasks,
            sel,
            groups[g].month@,
        ) && groups[g].ids.len() > 0
    &&& forall|g: int|
        0 <= g < groups.len() ==> (#[trigger] groups[g]).events@ == rollup_positions(
            active,
            texts_view(groups[g].ids),
        )
    &&& forall|k: int|
        #![trigger sel[k]]
        0 <= k < sel.len() ==> exists|g: int|
            0 <= g < groups.len() && (#[trigger] groups[g]).month@ == completion_month(
                tasks[sel[k] as int],
            )
}

/// Whether the markers are the Archive events of the selection, in order.
pub open spec fn markers_of(
    tasks: Seq<TaskView>,
    sel: Seq<usize>,
    now: Timestamp,
    branch: Seq<char>,
    markers: Seq<Event>,
) -> bool {
    &&& markers.len() == sel.len()
    &&& forall|k: int|
        0 <= k < sel.len() ==> {
            let m = #[trigger] markers[k];
            &&& m.v == 1
            &&& m.op == Operation::Archive
            &&& m.id@ == tasks[sel[k] as int].id
            &&& m.ts == now
            &&& m.by@ == system_actor()
            &&& m.branch@ == branch
            &&& m.d@.reference == Some(completion_month(tasks[sel[k] as int]))
            &&& m.d@.title is None && m.d@.rel is None && m.d@.target is None
        }
}

/// Whether `plan` is what archiving decides for the tasks `tasks`, with the
/// selection `sel` under the cutoff.
#[verifier::opaque]
pub open spec fn plan_with(
    tasks: Seq<TaskView>,
    cutoff: Timestamp,
    sel: Seq<usize>,
    active: Seq<Event>,
    now: Timestamp,
    dry_run: bool,
    branch: Seq<char>,
    plan: ArchivePlan,
) -> bool {
    &&& is_selection(tasks, cutoff, sel)
    &&& texts_view(plan.selected) == sel.map_values(|p: usize| tasks[p as int].id)
    &&& dry_run ==> plan.groups@.len() == 0 && plan.markers@.len() == 0
    &&& !dry_run ==> groups_of(tasks, sel, active, plan.groups@) && markers_of(
        tasks,
        sel,
        now,
        branch,
        plan.markers@,
    )
}

/// Whether `plan` is what archiving decides over these logs.
pub open spec fn is_plan(
    archived: Seq<Event>,
    active: Seq<Event>,
    now: Timestamp,
    days: u32,
    dry_run: bool,
    branch: Seq<char>,
    plan: ArchivePlan,
) -> bool {
    exists|sel: Seq<usize>|
        plan_with(
            replay(archived + active),
            crate::time::days_before(now, days),
            sel,
            active,
            now,
            dry_run,
            branch,
            plan,
        )
}

fn event_positions(events: &Vec<Event>, ids: &Vec<String>) -> (r: Vec<usize>)
    ensures
        r@ == rollup_positions(events@, texts_view(*ids)),
{
    let mut r: Vec<usize> = Vec::new();
    let mut k: usize = 0;
    while k < ids.len()
        invariant
            k <= ids.len(),
            r@ == rollup_positions(events@, texts_view(*ids).take(k as int)),
        decreases ids.len() - k,
    {
        let ghost base = r@;
        let mut j: usize = 0;
        proof {
            assert(events@.take(0) =~= Seq::<Event>::empty());
            assert(base + positions_of(events@.take(0), ids@[k as int]@) =~= base);
        }
        while j < events.len()
            invariant
                k < ids.len(),
                j <= events.len(),
                r@ == base + positions_of(events@.take(j as int), ids@[k as int]@),
            decreases events.len() - j,
        {
            proof {
                assert(events@.take(j + 1).drop_last() =~= events@.take(j as int));
            }
            if events[j].id == ids[k] {
                r.push(j);
                proof {
                    assert(r@ =~= base + positions_of(events@.take(j + 1), ids@[k as int]@));
                }
            }
            j = j + 1;
        }
        proof {
            assert(events@.take(events.len() as int) =~= events@);
            assert(texts_view(*ids).take(k + 1).drop_last() =~= texts_view(*ids).take(k as int));
        }
        k = k + 1;
    }
    proof {
        assert(texts_view(*ids).take(ids.len() as int) =~= texts_view(*ids));
    }
    r
}

/// The month groups of a selection, in the order their months first occur.
fn group_by_month(tasks: &Vec<Task>, sel: &Vec<usize>, active: &Vec<Event>) -> (r: Vec<MonthGroup>)
    requires
        forall|k: int| 0 <= k < sel.len() ==> sel@[k] < tasks.len() && tasks_view(tasks@)[sel@[k] as int].completed is Some,
        completions_representable(tasks_view(tasks@)),
    ensures
        groups_of(tasks_view(tasks@), sel@, active@, r@),
{
    let ghost tv = tasks_view(tasks@);
    let mut groups: Vec<MonthGroup> = Vec::new();
    let mut k: usize = 0;
    while k < sel.len()
        invariant
            k <= sel.len(),
            tv == tasks_view(tasks@),
            forall|q: int| 0 <= q < sel.len() ==> sel@[q] < tasks.len() && tv[sel@[q] as int].completed is Some,
            completions_representable(tv),
            forall|g: int, h: int| 0 <= g < h < groups.len() ==> groups@[g].month@ != groups@[h].month@,
            forall|g: int|
                0 <= g < groups.len() ==> texts_view(#[trigger] groups@[g].ids) == ids_in_month(
                    tv,
                    sel@.take(k as int),
                    groups@[g].month@,
                ) && groups@[g].ids.len() > 0,
            forall|q: int|
                #![trigger sel@[q]]
                0 <= q < k ==> exists|g: int|
                    0 <= g < groups.len() && (#[trigger] groups@[g]).month@ == completion_month(
                        tv[sel@[q] as int],
                    ),
        decreases sel.len() - k,
    {
        let p = sel[k];
        let t = &tasks[p];
        let c = match t.completed {
            Some(c) => c,
            None => Timestamp { secs: 0, nanos: 0 },
        };
        assert(tv[p as int].completed == Some(c));
        let month = c.month_text();
        let ghost prefix = sel@.take(k as int);
        let ghost next = sel@.take(k + 1);
        proof {
            assert(next.drop_last() =~= prefix);
            assert(next.last() == p);
            assert(month@ == completion_month(tv[p as int]));
        }
        let mut g: usize = 0;
        let mut found = false;
        while g < groups.len() && !found
            invariant
                g <= groups.len(),
                forall|h: int| 0 <= h < g ==> groups@[h].month@ != month@,
                found ==> g < groups.len() && groups@[g as int].month@ == month@,
            decreases groups.len() - g, if found { 0int } else { 1int },
        {
            if groups[g].month == month {
                found = true;
            } else {
                g = g + 1;
            }
        }
        let ghost before = groups@;
        if found {
            let mut grp = MonthGroup { month: String::new(), ids: Vec::new(), events: Vec::new() };
            groups.set_and_swap(g, &mut grp);
            grp.ids.push(t.id.clone());
            proof {
                assert(texts_view(grp.ids) =~= texts_view(before[g as int].ids).push(tv[p as int].id));
            }
            groups.set_and_swap(g, &mut grp);
            proof {
                assert forall|h: int|
                    0 <= h < groups.len() implies texts_view(#[trigger] groups@[h].ids) == ids_in_month(
                    tv,
                    next,
                    groups@[h].month@,
                ) && groups@[h].ids.len() > 0 by {
                    if h != g {
                        assert(groups@[h] == before[h]);
                    }
                }
                assert forall|q: int|
                    #![trigger sel@[q]]
                    0 <= q < k + 1 implies exists|h: int|
                    0 <= h < groups.len() && (#[trigger] groups@[h]).month@ == completion_month(
                        tv[sel@[q] as int],
                    ) by {
                    if q < k {
                        let h = choose|h: int|
                            0 <= h < before.len() && (#[trigger] before[h]).month@ == completion_month(
                                tv[sel@[q] as int],
                            );
                        assert(groups@[h].month@ == before[h].month@);
                    } else {
                        assert(groups@[g as int].month@ == month@);
                    }
                }
            }
        } else {
            let mut ids: Vec<String> = Vec::new();
            ids.push(t.id.clone());
            proof {
                assert(ids_in_month(tv, prefix, month@) =~= Seq::<Seq<char>>::empty()) by {
                    lemma_month_absent(tv, prefix, month@);
                }
                assert(texts_view(ids) =~= seq![tv[p as int].id]);
            }
            groups.push(MonthGroup { month, ids, events: Vec::new() });
            proof {
                assert forall|h: int|
                    0 <= h < groups.len() implies texts_view(#[trigger] groups@[h].ids) == ids_in_month(
                    tv,
                    next,
                    groups@[h].month@,
                ) && groups@[h].ids.len() > 0 by {
                    if h < before.len() {
                        assert(groups@[h] == before[h]);
                    }
                }
                assert forall|q: int|
                    #![trigger sel@[q]]
                    0 <= q < k + 1 implies exists|h: int|
                    0 <= h < groups.len() && (#[trigger] groups@[h]).month@ == completion_month(
                        tv[sel@[q] as int],
                    ) by {
                    if q < k {
                        let h = choose|h: int|
                            0 <= h < before.len() && (#[trigger] before[h]).month@ == completion_month(
                                tv[sel@[q] as int],
                            );
                        assert(groups@[h] == before[h]);
                    } else {
                        assert(groups@[before.len() as int].month@ == month@);
                    }
                }
            }
        }
        k = k + 1;
    }
    proof {
        assert(sel@.take(sel.len() as int) =~= sel@);
    }
    let mut out: Vec<MonthGroup> = Vec::new();
    let mut g: usize = 0;
    while g < groups.len()
        invariant
            g <= groups.len(),
            out.len() == g,
            forall|h: int|
                0 <= h < g ==> (#[trigger] out@[h]).month@ == groups@[h].month@ && texts_view(out@[h].ids)
                    == texts_view(groups@[h].ids) && out@[h].ids.len() == groups@[h].ids.len()
                    && out@[h].events@ == rollup_positions(active@, texts_view(out@[h].ids)),
        decreases groups.len() - g,
    {
        let events = event_positions(active, &groups[g].ids);
        let ids = crate::text::copy_texts(&groups[g].ids);
        out.push(MonthGroup { month: groups[g].month.clone(), ids, events });
        g = g + 1;
    }
    proof {
        assert forall|q: int| #![trigger sel@[q]] 0 <= q < sel.len() implies exists|h: int|
            0 <= h < out.len() && (#[trigger] out@[h]).month@ == completion_month(tv[sel@[q] as int]) by {
            let h = choose|h: int|
                0 <= h < groups.len() && (#[trigger] groups@[h]).month@ == completion_month(tv[sel@[q] as int]);
            assert(out@[h].month@ == groups@[h].month@);
        }
    }
    out
}

/// A month that no group has yet holds no selected id so far.
proof fn lemma_month_absent(tasks: Seq<TaskView>, sel: Seq<usize>, month: Seq<char>)
    requires
        forall|q: int| 0 <= q < sel.len() ==> completion_month(tasks[sel[q] as int]) != month,
    ensures
        ids_in_month(tasks, sel, month) == Seq::<Seq<char>>::empty(),
    decreases sel.len(),
{
    if sel.len() > 0 {
        let prev = sel.drop_last();
        assert forall|q: int| 0 <= q < prev.len() implies completion_month(tasks[prev[q] as int]) != month by {
            assert(prev[q] == sel[q]);
        }
        lemma_month_absent(tasks, prev, month);
        assert(completion_month(tasks[sel[sel.len() - 1] as int]) != month);
    }
}

/// The Archive event that marks one task as rolled up into `month`.
fn marker(id: &String, month: String, now: Timestamp, branch: &String) -> (r: Event)
    ensures
        r.v == 1,
        r.op == Operation::Archive,
        r.id@ == id@,
        r.ts == now,
        r.by@ == system_actor(),
        r.branch@ == branch@,
        r.d@.reference == Some(month@),
        r.d@.title is None && r.d@.rel is None && r.d@.target is None,
{
    let mut d = Payload::empty();
    d.reference = Some(month);
    Event {
        v: 1,
        op: Operation::Archive,
        id: id.clone(),
        ts: now,
        by: "@fabric".to_owned(),
        branch: branch.clone(),
        d,
    }
}

/// Decides an archive run over the archived and active logs: the tasks due
/// (complete, completed more than `days` days before `now`, not archived),
/// oldest completion first. A dry run only reports them; otherwise the plan
/// also holds one rollup group per completion month and one Archive event
/// per task, stamped `now` on `branch`.
pub fn archive_tasks(
    archived: &Vec<Event>,
    active: &Vec<Event>,
    now: Timestamp,
    days: u32,
    dry_run: bool,
    branch: &String,
) -> (r: ArchivePlan)
    requires
        all_wf(archived@ + active@),
    ensures
        is_plan(archived@, active@, now, days, dry_run, branch@, r),
{
    let state = crate::state::materialize(archived, active, now);
    let tasks = &state.tasks;
    let ghost tv = tasks_view(tasks@);
    proof {
        lemma_replay_completions(archived@ + active@);
    }
    let cutoff = now.days_earlier(days);
    let sel = select_due(tasks, cutoff);
    let mut selected: Vec<String> = Vec::new();
    let mut k: usize = 0;
    while k < sel.len()
        invariant
            k <= sel.len(),
            tv == tasks_view(tasks@),
            is_selection(tv, cutoff, sel@),
            selected.len() == k,
            forall|q: int| 0 <= q < k ==> (#[trigger] selected@[q])@ == tv[sel@[q] as int].id,
        decreases sel.len() - k,
    {
        let id = tasks[sel[k]].id.clone();
        selected.push(id);
        k = k + 1;
    }
    proof {
        assert(texts_view(selected) =~= sel@.map_values(|p: usize| tv[p as int].id));
    }
    if dry_run {
        let r = ArchivePlan { selected, groups: Vec::new(), markers: Vec::new() };
        reveal(plan_with);
        assert(plan_with(tv, cutoff, sel@, active@, now, dry_run, branch@, r));
        return r;
    }
    let groups = group_by_month(tasks, &sel, active);
    let mut markers: Vec<Event> = Vec::new();
    let mut k: usize = 0;
    while k < sel.len()
        invariant
            k <= sel.len(),
            tv == tasks_view(tasks@),
            is_selection(tv, cutoff, sel@),
            completions_representable(tv),
            markers_of(tv, sel@.take(k as int), now, branch@, markers@),
        decreases sel.len() - k,
    {
        let t = &tasks[sel[k]];
        let c = match t.completed {
            Some(c) => c,
            None => Timestamp { secs: 0, nanos: 0 },
        };
        assert(tv[sel@[k as int] as int].completed == Some(c));
        let m = marker(&t.id, c.month_text(), now, branch);
        markers.push(m);
        k = k + 1;
        proof {
            assert forall|q: int| 0 <= q < k implies sel@.take(k as int)[q] == sel@[q] by {}
        }
    }
    proof {
        assert(sel@.take(sel.len() as int) =~= sel@);
    }
    let r = ArchivePlan { selected, groups, markers };
    reveal(plan_with);
    assert(plan_with(tv, cutoff, sel@, active@, now, dry_run, branch@, r));
    r
}

/// Invariant of replaying the markers one by one: the ids stay where they
/// were, and every task still due has a marker yet to come.
proof fn lemma_markers_archive(events: Seq<Event>, markers: Seq<Event>, cutoff: Timestamp, k: int)
    requires
        0 <= k <= markers.len(),
        forall|j: int|
            0 <= j < markers.len() ==> (#[trigger] markers[j]).op == Operation::Archive
                && markers[j].d@.reference is Some,
        ({
            let t = replay(events + markers.take(k));
            forall|i: int|
                0 <= i < t.len() && eligible(#[trigger] t[i], cutoff) ==> exists|j: int|
                    k <= j < markers.len() && markers[j].id@ == t[i].id
        }),
    ensures
        ({
            let t = replay(events + markers);
            forall|i: int| 0 <= i < t.len() ==> !eligible(#[trigger] t[i], cutoff)
        }),
    decreases markers.len() - k,
{
    if k == markers.len() {
        assert(markers.take(k) =~= markers);
    } else {
        let before = replay(events + markers.take(k));
        let m = markers[k];
        assert((events + markers.take(k + 1)).drop_last() =~= events + markers.take(k));
        assert((events + markers.take(k + 1)).last() == m);
        let after = replay(events + markers.take(k + 1));
        assert(after == apply(before, m));
        crate::state::lemma_replay_unique(events + markers.take(k));
        assert forall|i: int|
            0 <= i < after.len() && eligible(#[trigger] after[i], cutoff) implies exists|j: int|
            k + 1 <= j < markers.len() && markers[j].id@ == after[i].id by {
            match find_task(before, m.id@) {
                Some(p) => {
                    if i == p {
                        assert(after[i].archived is Some);
                    } else {
                        assert(after[i] == before[i]);
                        let j = choose|j: int| k <= j < markers.len() && markers[j].id@ == before[i].id;
                        if j == k {
                            assert(before[p].id == m.id@);
                            assert(false);
                        }
                    }
                },
                None => {
                    assert(after[i] == before[i]);
                    let j = choose|j: int| k <= j < markers.len() && markers[j].id@ == before[i].id;
                    if j == k {
                        assert(false);
                    }
                },
            }
        }
        lemma_markers_archive(events, markers, cutoff, k + 1);
    }
}

/// The markers of a plan are Archive events with a month, and every task
/// due has one.
proof fn lemma_plan_markers(
    tasks: Seq<TaskView>,
    cutoff: Timestamp,
    sel: Seq<usize>,
    active: Seq<Event>,
    now: Timestamp,
    branch: Seq<char>,
    plan: ArchivePlan,
)
    requires
        plan_with(tasks, cutoff, sel, active, now, false, branch, plan),
    ensures
        forall|j: int|
            0 <= j < plan.markers@.len() ==> (#[trigger] plan.markers@[j]).op == Operation::Archive
                && plan.markers@[j].d@.reference is Some,
        forall|i: int|
            0 <= i < tasks.len() && eligible(#[trigger] tasks[i], cutoff) ==> exists|j: int|
                0 <= j < plan.markers@.len() && plan.markers@[j].id@ == tasks[i].id,
{
    reveal(plan_with);
    let markers = plan.markers@;
    assert(markers_of(tasks, sel, now, branch, markers));
    assert forall|j: int|
        0 <= j < markers.len() implies (#[trigger] markers[j]).op == Operation::Archive
        && markers[j].d@.reference is Some by {}
    assert forall|i: int|
        0 <= i < tasks.len() && eligible(#[trigger] tasks[i], cutoff) implies exists|j: int|
        0 <= j < markers.len() && markers[j].id@ == tasks[i].id by {
        let w = choose|w: int| 0 <= w < sel.len() && sel[w] == i;
        assert(markers[w].id@ == tasks[sel[w] as int].id);
    }
}

/// With nothing due, a plan selects and marks nothing.
proof fn lemma_nothing_due(
    tasks: Seq<TaskView>,
    cutoff: Timestamp,
    sel: Seq<usize>,
    active: Seq<Event>,
    now: Timestamp,
    dry_run: bool,
    branch: Seq<char>,
    plan: ArchivePlan,
)
    requires
        plan_with(tasks, cutoff, sel, active, now, dry_run, branch, plan),
        forall|i: int| 0 <= i < tasks.len() ==> !eligible(#[trigger] tasks[i], cutoff),
    ensures
        plan.selected.len() == 0,
        plan.markers.len() == 0,
        plan.groups.len() == 0,
{
    reveal(plan_with);
    if sel.len() > 0 {
        assert(eligible(tasks[sel[0] as int], cutoff));
    }
    assert(texts_view(plan.selected).len() == sel.len());
    if !dry_run {
        assert(markers_of(tasks, sel, now, branch, plan.markers@));
        if plan.groups@.len() > 0 {
            assert(groups_of(tasks, sel, active, plan.groups@));
            assert(texts_view(plan.groups@[0].ids) == ids_in_month(tasks, sel, plan.groups@[0].month@));
            assert(ids_in_month(tasks, sel, plan.groups@[0].month@) == Seq::<Seq<char>>::empty());
        }
    }
}

/// Archiving is idempotent: once the Archive events of a run are appended to
/// the active log, a later run, dry or not, finds nothing due, provided that
/// every task due at its cutoff was already due at the first run's cutoff
/// (no completion falls between the two cutoffs; at the same instant and
/// number of days this always holds).
pub proof fn archive_then_nothing_due(
    archived: Seq<Event>,
    active: Seq<Event>,
    now: Timestamp,
    days: u32,
    branch: Seq<char>,
    plan: ArchivePlan,
    later_now: Timestamp,
    later_days: u32,
    later_dry_run: bool,
    later_branch: Seq<char>,
    again: ArchivePlan,
)
    requires
        is_plan(archived, active, now, days, false, branch, plan),
        forall|i: int|
            0 <= i < replay(archived + active).len() && eligible(
                #[trigger] replay(archived + active)[i],
                crate::time::days_before(later_now, later_days),
            ) ==> eligible(replay(archived + active)[i], crate::time::days_before(now, days)),
        is_plan(
            archived,
            active + plan.markers@,
            later_now,
            later_days,
            later_dry_run,
            later_branch,
            again,
        ),
    ensures
        again.selected.len() == 0,
        again.markers.len() == 0,
        again.groups.len() == 0,
{
    let events = archived + active;
    let tasks = replay(events);
    let cutoff = crate::time::days_before(now, days);
    let cutoff2 = crate::time::days_before(later_now, later_days);
    let markers = plan.markers@;
    let sel = choose|sel: Seq<usize>|
        plan_with(tasks, cutoff, sel, active, now, false, branch, plan);
    lemma_plan_markers(tasks, cutoff, sel, active, now, branch, plan);
    assert(markers.take(0) =~= Seq::<Event>::empty());
    assert(events + markers.take(0) =~= events);
    assert forall|i: int|
        0 <= i < tasks.len() && eligible(#[trigger] tasks[i], cutoff2) implies exists|j: int|
        0 <= j < markers.len() && markers[j].id@ == tasks[i].id by {
        assert(eligible(tasks[i], cutoff));
    }
    lemma_markers_archive(events, markers, cutoff2, 0);
    assert(archived + (active + markers) =~= events + markers);
    let later = replay(events + markers);
    let sel2 = choose|sel2: Seq<usize>|
        plan_with(later, cutoff2, sel2, active + markers, later_now, later_dry_run, later_branch, again);
    lemma_nothing_due(later, cutoff2, sel2, active + markers, later_now, later_dry_run, later_branch, again);
}

} // verus!
