//! Properties of replay that relate several events or several runs.

use vstd::prelude::*;
use crate::event::{Event, Operation};
use crate::state::{
    apply, apply_all, find_task, ids_unique, lemma_replay_is_apply_all, replay, tasks_view, touched,
    State, TaskStatus, TaskView,
};

verus! {

/// Applying the same ordered events to the same tasks gives the same tasks,
/// in the same order: the outcome depends on nothing else. So does
/// materializing, whatever instants the snapshots were taken at.
pub proof fn materialize_is_deterministic(
    start: Seq<TaskView>,
    same_start: Seq<TaskView>,
    events: Seq<Event>,
    same_events: Seq<Event>,
    a: State,
    b: State,
)
    requires
        same_start == start,
        same_events == events,
        tasks_view(a.tasks@) == replay(events),
        tasks_view(b.tasks@) == replay(same_events),
    ensures
        apply_all(start, events) == apply_all(same_start, same_events),
        tasks_view(a.tasks@) == tasks_view(b.tasks@),
        replay(events) == apply_all(Seq::empty(), events),
{
    lemma_replay_is_apply_all(events);
}

/// Events of any operation but Create, applied to tasks that hold no task
/// with an id, leave no task with that id when no Create names it.
pub proof fn no_task_without_create(start: Seq<TaskView>, events: Seq<Event>, id: Seq<char>)
    requires
        find_task(start, id) is None,
        forall|i: int| 0 <= i < events.len() ==> !(#[trigger] events[i].op is Create && events[i].id@ == id),
    ensures
        find_task(apply_all(start, events), id) is None,
        start.len() == 0 ==> find_task(replay(events), id) is None,
    decreases events.len(),
{
    lemma_replay_is_apply_all(events);
    if events.len() > 0 {
        let prev = events.drop_last();
        assert forall|i: int| 0 <= i < prev.len() implies !(#[trigger] prev[i].op is Create && prev[i].id@ == id) by {
            assert(prev[i] == events[i]);
        }
        no_task_without_create(start, prev, id);
        let before = apply_all(start, prev);
        let e = events.last();
        assert(!(events[events.len() - 1].op is Create && events[events.len() - 1].id@ == id));
        let after = apply_all(start, events);
        assert forall|k: int| 0 <= k < after.len() implies after[k].id != id by {
            match find_task(before, e.id@) {
                Some(j) => {
                    if k != j {
                        assert(after[k] == before[k]);
                    }
                },
                None => {
                    if k < before.len() {
                        assert(after[k] == before[k]);
                    }
                },
            }
        }
    }
    if start.len() == 0 {
        assert(start =~= Seq::<TaskView>::empty());
    }
}

/// A Link `blocks` to a target acts as a set insertion: it adds the target
/// once when it is absent, and a second identical Link changes nothing but
/// the time of the last change.
pub proof fn link_blocks_is_set_insertion(
    tasks: Seq<TaskView>,
    first: Event,
    second: Event,
    target: Seq<char>,
)
    requires
        ids_unique(tasks),
        find_task(tasks, first.id@) is Some,
        first.op is Link,
        second.op is Link,
        second.id@ == first.id@,
        first.d@.rel == Some("blocks"@),
        second.d@.rel == Some("blocks"@),
        first.d@.target == Some(target),
        second.d@.target == Some(target),
    ensures
        ({
            let i = find_task(tasks, first.id@)->Some_0;
            let once = apply(tasks, first);
            let twice = apply(once, second);
            &&& once[i].blocks.contains(target)
            &&& twice[i].blocks == once[i].blocks
            &&& !tasks[i].blocks.contains(target) ==> once[i].blocks == tasks[i].blocks.push(target)
            &&& tasks[i].blocks.contains(target) ==> once[i].blocks == tasks[i].blocks
            &&& !tasks[i].blocks.contains(target) ==> forall|a: int, b: int|
                0 <= a < twice[i].blocks.len() && 0 <= b < twice[i].blocks.len()
                    && twice[i].blocks[a] == target && twice[i].blocks[b] == target ==> a == b
        }),
{
    let i = find_task(tasks, first.id@)->Some_0;
    let once = apply(tasks, first);
    assert(once[i].id == tasks[i].id);
    crate::state::lemma_apply_unique(tasks, first);
    crate::state::lemma_find_unique(once, i);
    if !tasks[i].blocks.contains(target) {
        let l = tasks[i].blocks;
        assert(l.push(target)[l.len() as int] == target);
        assert forall|a: int, b: int|
            0 <= a < l.len() + 1 && 0 <= b < l.len() + 1 && l.push(target)[a] == target && l.push(
                target,
            )[b] == target implies a == b by {
            if a < l.len() {
                assert(l[a] == target);
            }
            if b < l.len() {
                assert(l[b] == target);
            }
        }
    }
}

/// Complete followed by Reopen leaves the task open, with no completion
/// instant and no resolution, last changed at the Reopen.
pub proof fn reopen_undoes_complete(
    tasks: Seq<TaskView>,
    complete: Event,
    reopen: Event,
)
    requires
        ids_unique(tasks),
        find_task(tasks, complete.id@) is Some,
        complete.op is Complete,
        reopen.op is Reopen,
        reopen.id@ == complete.id@,
    ensures
        ({
            let i = find_task(tasks, complete.id@)->Some_0;
            let done = apply(tasks, complete);
            let back = apply(done, reopen);
            &&& done[i].status == TaskStatus::Complete
            &&& back[i].status == TaskStatus::Open
            &&& back[i].completed is None
            &&& back[i].resolution is None
            &&& back[i].updated == reopen.ts
            &&& back.len() == tasks.len()
        }),
{
    let i = find_task(tasks, complete.id@)->Some_0;
    let done = apply(tasks, complete);
    assert(done[i].id == tasks[i].id);
    crate::state::lemma_apply_unique(tasks, complete);
    crate::state::lemma_find_unique(done, i);
}

} // verus!
