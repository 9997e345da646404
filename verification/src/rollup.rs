//! The parent rollup: every task with children takes its dates and duration
//! from them, deepest level first.

use vstd::prelude::*;

use crate::date_utils::{
    count_work_days, count_work_days_spec, earlier_date, earlier_of, later_date, later_of, Date,
};
use crate::graph::{depths_of, parent_flags, task_depths};
use crate::levels::{
    level_round, level_rounds, level_task, roll_is_stable, roll_keeps_hierarchy, rolled_from,
    rolled_levels, same_children, same_hierarchy, Roll,
};
use crate::types::{day_of, task_views, Calendar, CalendarView, Task, TaskView};

verus! {

/// Whether the task at position `j` is a child of `parent` with both dates.
pub open spec fn is_dated_child(tasks: Seq<TaskView>, parent: Seq<char>, j: int) -> bool {
    tasks[j].parent_id == Some(parent) && tasks[j].start is Some && tasks[j].end is Some
}

/// The earliest start among the dated children of `parent` in the first
/// `upto` tasks.
pub open spec fn children_start(tasks: Seq<TaskView>, parent: Seq<char>, upto: int) -> Option<int>
    decreases upto,
{
    if upto <= 0 {
        None
    } else if is_dated_child(tasks, parent, upto - 1) {
        earlier_of(children_start(tasks, parent, upto - 1), tasks[upto - 1].start)
    } else {
        children_start(tasks, parent, upto - 1)
    }
}

/// The latest finish among the dated children of `parent` in the first
/// `upto` tasks.
pub open spec fn children_end(tasks: Seq<TaskView>, parent: Seq<char>, upto: int) -> Option<int>
    decreases upto,
{
    if upto <= 0 {
        None
    } else if is_dated_child(tasks, parent, upto - 1) {
        later_of(children_end(tasks, parent, upto - 1), tasks[upto - 1].end)
    } else {
        children_end(tasks, parent, upto - 1)
    }
}

/// The task at position `i` with its dates rolled up from its children.
///
/// It starts with the earliest and ends with the latest of its dated
/// children, keeping its own dates where it has no such child, and where it
/// then has both dates its duration is the count of working days from start
/// to finish.
pub open spec fn rolled_up(tasks: Seq<TaskView>, calendar: CalendarView, i: int) -> TaskView {
    let task = tasks[i];
    let start = children_start(tasks, task.id, tasks.len() as int);
    let start = if start is Some {
        start
    } else {
        task.start
    };
    let end = children_end(tasks, task.id, tasks.len() as int);
    let end = if end is Some {
        end
    } else {
        task.end
    };
    TaskView {
        start,
        end,
        duration: if start is Some && end is Some {
            count_work_days_spec(calendar, start->0, end->0)
        } else {
            task.duration
        },
        ..task
    }
}

/// The rule of the parent rollup.
pub open spec fn date_roll(calendar: CalendarView) -> Roll {
    |tasks: Seq<TaskView>, i: int| rolled_up(tasks, calendar, i)
}

/// The task list after the parent rollup.
pub open spec fn calculate_parent_dates_spec(
    tasks: Seq<TaskView>,
    calendar: CalendarView,
) -> Seq<TaskView> {
    rolled_levels(tasks, date_roll(calendar))
}

/// The dates and duration that the rollup gives the task at `i`.
fn roll_up(tasks: &[Task], i: usize, calendar: &Calendar) -> (r: (Option<Date>, Option<Date>, i32))
    requires
        i < tasks.len(),
    ensures
        day_of(r.0) == rolled_up(task_views(tasks@), calendar@, i as int).start,
        day_of(r.1) == rolled_up(task_views(tasks@), calendar@, i as int).end,
        r.2 == rolled_up(task_views(tasks@), calendar@, i as int).duration,
{
    let ghost views = task_views(tasks@);
    let mut first: Option<Date> = None;
    let mut last: Option<Date> = None;
    let mut j: usize = 0;
    while j < tasks.len()
        invariant
            i < tasks.len(),
            j <= tasks.len(),
            views == task_views(tasks@),
            day_of(first) == children_start(views, views[i as int].id, j as int),
            day_of(last) == children_end(views, views[i as int].id, j as int),
        decreases tasks.len() - j,
    {
        let is_child = match &tasks[j].parent_id {
            Some(parent) => *parent == tasks[i].id,
            None => false,
        };
        if is_child && tasks[j].start.is_some() && tasks[j].end.is_some() {
            first = earlier_date(first, tasks[j].start);
            last = later_date(last, tasks[j].end);
        }
        j += 1;
    }
    let start = if first.is_some() {
        first
    } else {
        tasks[i].start
    };
    let end = if last.is_some() {
        last
    } else {
        tasks[i].end
    };
    let duration = match (start, end) {
        (Some(s), Some(e)) => count_work_days(s, e, calendar),
        _ => tasks[i].duration,
    };
    (start, end, duration)
}

/// Rolls up the tasks with children that lie at `depth`.
fn rollup_level(
    tasks: &mut [Task],
    calendar: &Calendar,
    parents: &Vec<bool>,
    depths: &Vec<usize>,
    depth: usize,
)
    requires
        parents.len() == old(tasks).len(),
        depths.len() == old(tasks).len(),
    ensures
        final(tasks).len() == old(tasks).len(),
        task_views(final(tasks)@) == level_round(
            task_views(old(tasks)@),
            parents@,
            depths@.map_values(|d: usize| d as nat),
            depth as nat,
            date_roll(calendar@),
        ),
{
    let ghost before = task_views(tasks@);
    let ghost levels = depths@.map_values(|d: usize| d as nat);
    let count = tasks.len();
    let mut rolled: Vec<(Option<Date>, Option<Date>, i32)> = Vec::new();
    let mut i: usize = 0;
    while i < count
        invariant
            i <= count,
            count == tasks.len(),
            parents.len() == count,
            depths.len() == count,
            levels == depths@.map_values(|d: usize| d as nat),
            before == task_views(tasks@),
            rolled.len() == i,
            forall|j: int|
                0 <= j < i ==> {
                    let after = level_task(before, parents@, levels, depth as nat, date_roll(calendar@), j);
                    &&& day_of((#[trigger] rolled@[j]).0) == after.start
                    &&& day_of(rolled@[j].1) == after.end
                    &&& rolled@[j].2 == after.duration
                },
        decreases count - i,
    {
        if parents[i] && depths[i] == depth {
            let dates = roll_up(tasks, i, calendar);
            rolled.push(dates);
        } else {
            rolled.push((tasks[i].start, tasks[i].end, tasks[i].duration));
        }
        i += 1;
    }
    let mut j: usize = 0;
    while j < count
        invariant
            j <= count,
            count == tasks.len(),
            before.len() == count,
            rolled.len() == count,
            forall|k: int|
                0 <= k < count ==> {
                    let after = level_task(before, parents@, levels, depth as nat, date_roll(calendar@), k);
                    &&& day_of((#[trigger] rolled@[k]).0) == after.start
                    &&& day_of(rolled@[k].1) == after.end
                    &&& rolled@[k].2 == after.duration
                },
            forall|k: int|
                0 <= k < j ==> (#[trigger] tasks@[k])@ == level_task(
                    before,
                    parents@,
                    levels,
                    depth as nat,
                    date_roll(calendar@),
                    k,
                ),
            forall|k: int| j <= k < count ==> (#[trigger] tasks@[k])@ == before[k],
        decreases count - j,
    {
        let (start, end, duration) = rolled[j];
        tasks[j].start = start;
        tasks[j].end = end;
        tasks[j].duration = duration;
        j += 1;
    }
}

/// Gives every task with children the dates and duration of its children,
/// deepest level first.
pub fn calculate_parent_dates(tasks: &mut [Task], calendar: &Calendar)
    ensures
        final(tasks).len() == old(tasks).len(),
        task_views(final(tasks)@) == calculate_parent_dates_spec(
            task_views(old(tasks)@),
            calendar@,
        ),
{
    let ghost start = task_views(tasks@);
    let parents = parent_flags(tasks);
    let (depths, deepest) = task_depths(tasks);
    let ghost levels = depths@.map_values(|d: usize| d as nat);
    assert(levels =~= depths_of(start));
    let mut level: usize = deepest;
    loop
        invariant_except_break
            tasks.len() == old(tasks).len(),
            parents.len() == tasks.len(),
            depths.len() == tasks.len(),
            levels == depths@.map_values(|d: usize| d as nat),
            calculate_parent_dates_spec(start, calendar@) == level_rounds(
                task_views(tasks@),
                parents@,
                levels,
                level as int,
                date_roll(calendar@),
            ),
        ensures
            tasks.len() == old(tasks).len(),
            calculate_parent_dates_spec(start, calendar@) == task_views(tasks@),
        decreases level,
    {
        rollup_level(tasks, calendar, &parents, &depths, level);
        if level == 0 {
            assert(level_rounds(task_views(tasks@), parents@, levels, -1, date_roll(calendar@))
                == task_views(tasks@));
            break ;
        }
        level -= 1;
    }
}

/// Lists with the same tasks as children of `parent` give it the same
/// earliest start and latest finish among them.
pub proof fn lemma_children_dates_agree(
    a: Seq<TaskView>,
    b: Seq<TaskView>,
    parent: Seq<char>,
    upto: int,
)
    requires
        same_hierarchy(a, b),
        same_children(a, b, parent),
        upto <= a.len(),
    ensures
        children_start(a, parent, upto) == children_start(b, parent, upto),
        children_end(a, parent, upto) == children_end(b, parent, upto),
    decreases upto,
{
    if upto > 0 {
        lemma_children_dates_agree(a, b, parent, upto - 1);
    }
}

/// The rule of the parent rollup looks at nothing but a task and its
/// children, is unchanged by its own result, and keeps identifier and
/// parent.
pub proof fn lemma_date_roll(calendar: CalendarView)
    ensures
        roll_is_stable(date_roll(calendar)),
        roll_keeps_hierarchy(date_roll(calendar)),
{
    let roll = date_roll(calendar);
    assert forall|a: Seq<TaskView>, b: Seq<TaskView>, i: int| #[trigger]
        rolled_from(roll, a, b, i) implies roll(b, i) == roll(a, i) by {
        lemma_children_dates_agree(a, b, a[i].id, a.len() as int);
    }
    assert forall|a: Seq<TaskView>, i: int| 0 <= i < a.len() implies (#[trigger] roll(a, i)).id
        == a[i].id && roll(a, i).parent_id == a[i].parent_id by {}
}

/// `children_start` is the least start among the dated children, and
/// `children_end` the greatest finish: each is the date of one of them and
/// bounds the dates of all.
pub proof fn lemma_children_dates_bound(tasks: Seq<TaskView>, parent: Seq<char>, upto: int)
    requires
        0 <= upto <= tasks.len(),
    ensures
        forall|j: int|
            0 <= j < upto && is_dated_child(tasks, parent, j) ==> children_start(
                tasks,
                parent,
                upto,
            ) is Some && children_start(tasks, parent, upto)->0 <= (#[trigger] tasks[j]).start->0
                && children_end(tasks, parent, upto) is Some && children_end(
                tasks,
                parent,
                upto,
            )->0 >= tasks[j].end->0,
        children_start(tasks, parent, upto) is Some ==> exists|j: int|
            0 <= j < upto && is_dated_child(tasks, parent, j) && (#[trigger] tasks[j]).start
                == children_start(tasks, parent, upto),
        children_end(tasks, parent, upto) is Some ==> exists|j: int|
            0 <= j < upto && is_dated_child(tasks, parent, j) && (#[trigger] tasks[j]).end
                == children_end(tasks, parent, upto),
    decreases upto,
{
    if upto > 0 {
        lemma_children_dates_bound(tasks, parent, upto - 1);
    }
}

/// Lists that agree on parents, starts and finishes give a parent the same
/// earliest start and latest finish among its dated children.
pub proof fn lemma_children_dates_same(
    a: Seq<TaskView>,
    b: Seq<TaskView>,
    parent: Seq<char>,
    upto: int,
)
    requires
        a.len() == b.len(),
        upto <= a.len(),
        forall|j: int|
            0 <= j < a.len() ==> (#[trigger] a[j]).parent_id == b[j].parent_id && a[j].start
                == b[j].start && a[j].end == b[j].end,
    ensures
        children_start(a, parent, upto) == children_start(b, parent, upto),
        children_end(a, parent, upto) == children_end(b, parent, upto),
    decreases upto,
{
    if upto > 0 {
        lemma_children_dates_same(a, b, parent, upto - 1);
    }
}

} // verus!
