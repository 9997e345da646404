//! Marking the critical path.

use vstd::prelude::*;

use crate::graph::{depths_of, parent_flags, parent_flags_of, task_depths};
use crate::levels::{
    level_round, level_rounds, level_task, roll_is_stable, roll_keeps_hierarchy, rolled_from,
    rolled_levels, same_children, same_hierarchy, Roll,
};
use crate::types::{task_views, Task, TaskView};

verus! {

/// Whether a task without children is critical: it has a total float, and
/// none to spare.
pub open spec fn leaf_is_critical(task: TaskView) -> bool {
    task.total_float_days is Some && task.total_float_days->0 <= 0
}

/// The task at position `i` with its first mark: a task without children is
/// marked by its float, a task with children is unmarked until the rollup.
pub open spec fn mark_task(tasks: Seq<TaskView>, i: int) -> TaskView {
    TaskView {
        is_critical: Some(!parent_flags_of(tasks)[i] && leaf_is_critical(tasks[i])),
        ..tasks[i]
    }
}

/// The task list after every task has its first mark.
pub open spec fn mark_leaves(tasks: Seq<TaskView>) -> Seq<TaskView> {
    Seq::new(tasks.len(), |i: int| mark_task(tasks, i))
}

/// Whether one of the first `upto` tasks is a critical child of `parent`.
pub open spec fn has_critical_child(tasks: Seq<TaskView>, parent: Seq<char>, upto: int) -> bool
    decreases upto,
{
    if upto <= 0 {
        false
    } else {
        has_critical_child(tasks, parent, upto - 1) || (tasks[upto - 1].parent_id == Some(parent)
            && tasks[upto - 1].is_critical == Some(true))
    }
}

/// The task at position `i` marked as a task with children is: critical
/// exactly when one of its children is.
pub open spec fn critical_rolled_up(tasks: Seq<TaskView>, i: int) -> TaskView {
    TaskView {
        is_critical: Some(has_critical_child(tasks, tasks[i].id, tasks.len() as int)),
        ..tasks[i]
    }
}

/// The rule of the criticality rollup.
pub open spec fn critical_roll() -> Roll {
    |tasks: Seq<TaskView>, i: int| critical_rolled_up(tasks, i)
}

/// The task list after the critical path has been marked.
pub open spec fn mark_critical_path_spec(tasks: Seq<TaskView>) -> Seq<TaskView> {
    rolled_levels(mark_leaves(tasks), critical_roll())
}

/// Gives every task its first mark.
fn mark_all_leaves(tasks: &mut [Task])
    ensures
        final(tasks).len() == old(tasks).len(),
        task_views(final(tasks)@) == mark_leaves(task_views(old(tasks)@)),
{
    let ghost before = task_views(tasks@);
    let count = tasks.len();
    let parents = parent_flags(tasks);
    let mut j: usize = 0;
    while j < count
        invariant
            j <= count,
            count == tasks.len(),
            before.len() == count,
            parents@ == parent_flags_of(before),
            forall|k: int| 0 <= k < j ==> (#[trigger] tasks@[k])@ == mark_task(before, k),
            forall|k: int| j <= k < count ==> (#[trigger] tasks@[k])@ == before[k],
        decreases count - j,
    {
        let critical = !parents[j] && match tasks[j].total_float_days {
            Some(float) => float <= 0,
            None => false,
        };
        tasks[j].is_critical = Some(critical);
        j += 1;
    }
}

/// Whether the task at `i` has a critical child.
fn any_critical_child(tasks: &[Task], i: usize) -> (r: bool)
    requires
        i < tasks.len(),
    ensures
        r == has_critical_child(
            task_views(tasks@),
            task_views(tasks@)[i as int].id,
            tasks.len() as int,
        ),
{
    let ghost views = task_views(tasks@);
    let mut found = false;
    let mut j: usize = 0;
    while j < tasks.len()
        invariant
            i < tasks.len(),
            j <= tasks.len(),
            views == task_views(tasks@),
            found == has_critical_child(views, views[i as int].id, j as int),
        decreases tasks.len() - j,
    {
        let is_child = match &tasks[j].parent_id {
            Some(parent) => *parent == tasks[i].id,
            None => false,
        };
        let is_critical = match tasks[j].is_critical {
            Some(flag) => flag,
            None => false,
        };
        if is_child && is_critical {
            found = true;
        }
        j += 1;
    }
    found
}

/// Marks the tasks with children that lie at `depth`.
fn critical_level(tasks: &mut [Task], parents: &Vec<bool>, depths: &Vec<usize>, depth: usize)
    requires
        parents.len() == old(tasks).len(),
        depths.len() == old(tasks).len(),
    ensures
        final(tasks).len() == old(tasks).len(),
        task_views(final(tasks)@) == level_round(
            task_views(old(tasks)@),
            parents@,
            depths@.map_values(|d: usize| d as nat),
            depth as nat,
            critical_roll(),
        ),
{
    let ghost before = task_views(tasks@);
    let ghost levels = depths@.map_values(|d: usize| d as nat);
    let count = tasks.len();
    let mut marks: Vec<Option<bool>> = Vec::new();
    let mut i: usize = 0;
    while i < count
        invariant
            i <= count,
            count == tasks.len(),
            parents.len() == count,
            depths.len() == count,
            levels == depths@.map_values(|d: usize| d as nat),
            before == task_views(tasks@),
            marks.len() == i,
            forall|j: int|
                0 <= j < i ==> (#[trigger] marks@[j]) == level_task(
                    before,
                    parents@,
                    levels,
                    depth as nat,
                    critical_roll(),
                    j,
                ).is_critical,
        decreases count - i,
    {
        if parents[i] && depths[i] == depth {
            let critical = any_critical_child(tasks, i);
            marks.push(Some(critical));
        } else {
            marks.push(tasks[i].is_critical);
        }
        i += 1;
    }
    let mut j: usize = 0;
    while j < count
        invariant
            j <= count,
            count == tasks.len(),
            before.len() == count,
            marks.len() == count,
            forall|k: int|
                0 <= k < count ==> (#[trigger] marks@[k]) == level_task(
                    before,
                    parents@,
                    levels,
                    depth as nat,
                    critical_roll(),
                    k,
                ).is_critical,
            forall|k: int|
                0 <= k < j ==> (#[trigger] tasks@[k])@ == level_task(
                    before,
                    parents@,
                    levels,
                    depth as nat,
                    critical_roll(),
                    k,
                ),
            forall|k: int| j <= k < count ==> (#[trigger] tasks@[k])@ == before[k],
        decreases count - j,
    {
        tasks[j].is_critical = marks[j];
        j += 1;
    }
}

/// Marks the critical path: a task without children is critical when it has
/// no float to spare, a task with children when one of its children is.
pub fn mark_critical_path(tasks: &mut [Task])
    ensures
        final(tasks).len() == old(tasks).len(),
        task_views(final(tasks)@) == mark_critical_path_spec(task_views(old(tasks)@)),
{
    mark_all_leaves(tasks);
    let ghost leaves = task_views(tasks@);
    let parents = parent_flags(tasks);
    let (depths, deepest) = task_depths(tasks);
    let ghost levels = depths@.map_values(|d: usize| d as nat);
    assert(levels =~= depths_of(leaves));
    let mut level: usize = deepest;
    loop
        invariant_except_break
            tasks.len() == old(tasks).len(),
            parents.len() == tasks.len(),
            depths.len() == tasks.len(),
            levels == depths@.map_values(|d: usize| d as nat),
            rolled_levels(leaves, critical_roll()) == level_rounds(
                task_views(tasks@),
                parents@,
                levels,
                level as int,
                critical_roll(),
            ),
        ensures
            tasks.len() == old(tasks).len(),
            rolled_levels(leaves, critical_roll()) == task_views(tasks@),
        decreases level,
    {
        critical_level(tasks, &parents, &depths, level);
        if level == 0 {
            assert(level_rounds(task_views(tasks@), parents@, levels, -1, critical_roll())
                == task_views(tasks@));
            break ;
        }
        level -= 1;
    }
}

/// Lists with the same tasks as children of `parent` agree on whether it has
/// a critical child.
pub proof fn lemma_critical_child_agree(
    a: Seq<TaskView>,
    b: Seq<TaskView>,
    parent: Seq<char>,
    upto: int,
)
    requires
        same_hierarchy(a, b),
        same_children(a, b, parent),
        upto <= a.len(),
    ensures
        has_critical_child(a, parent, upto) == has_critical_child(b, parent, upto),
    decreases upto,
{
    if upto > 0 {
        lemma_critical_child_agree(a, b, parent, upto - 1);
    }
}

/// The rule of the criticality rollup looks at nothing but a task and its
/// children, is unchanged by its own result, and keeps identifier and
/// parent.
pub proof fn lemma_critical_roll()
    ensures
        roll_is_stable(critical_roll()),
        roll_keeps_hierarchy(critical_roll()),
{
    let roll = critical_roll();
    assert forall|a: Seq<TaskView>, b: Seq<TaskView>, i: int| #[trigger]
        rolled_from(roll, a, b, i) implies roll(b, i) == roll(a, i) by {
        lemma_critical_child_agree(a, b, a[i].id, a.len() as int);
    }
    assert forall|a: Seq<TaskView>, i: int| 0 <= i < a.len() implies (#[trigger] roll(a, i)).id
        == a[i].id && roll(a, i).parent_id == a[i].parent_id by {}
}

/// `has_critical_child` holds exactly when one of the tasks is a child of
/// `parent` and marked critical.
pub proof fn lemma_has_critical_child(tasks: Seq<TaskView>, parent: Seq<char>, upto: int)
    requires
        0 <= upto <= tasks.len(),
    ensures
        has_critical_child(tasks, parent, upto) <==> exists|j: int|
            0 <= j < upto && (#[trigger] tasks[j]).parent_id == Some(parent) && tasks[j].is_critical
                == Some(true),
    decreases upto,
{
    if upto > 0 {
        lemma_has_critical_child(tasks, parent, upto - 1);
    }
}

} // verus!
