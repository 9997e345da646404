//! The scheduling run: forward pass, parent rollup, backward pass, float and
//! critical path in turn, and the project's figures.

use vstd::prelude::*;

pub use crate::backward::backward_pass;
pub use crate::critical::mark_critical_path;
pub use crate::float::calculate_float;
pub use crate::forward::{forward_pass, forward_pass_on, MAX_CPM_ITERATIONS};
pub use crate::graph::{build_successor_map, get_duration_offset, SuccessorEntry};
pub use crate::rollup::calculate_parent_dates;

use crate::backward::{backward_pass_spec, find_project_finish, project_finish};
use crate::critical::mark_critical_path_spec;
use crate::date_utils::{
    count_work_days, count_work_days_spec, earlier_date, earlier_of, today_date, Date,
};
use crate::float::calculate_float_spec;
use crate::forward::forward_pass_spec;
use crate::graph::{parent_flags, parent_flags_of, successor_map_of};
use crate::rollup::calculate_parent_dates_spec;
use crate::types::{
    copy_tasks, day_of, task_views, CPMResult, CPMResultView, CPMStats, CPMStatsView, Calendar,
    CalendarView, Task, TaskView,
};

verus! {

/// The task list after a scheduling run that takes `today` for the start of
/// any task that nothing else gives a start.
pub open spec fn scheduled(
    tasks: Seq<TaskView>,
    calendar: CalendarView,
    today: Option<int>,
) -> Seq<TaskView> {
    let successors = successor_map_of(tasks);
    let forward = forward_pass_spec(tasks, calendar, today);
    let rolled = calculate_parent_dates_spec(forward, calendar);
    let backward = backward_pass_spec(rolled, calendar, successors);
    let floated = calculate_float_spec(backward, calendar, successors);
    mark_critical_path_spec(floated)
}

/// The earliest start among the first `upto` tasks that have no children.
pub open spec fn project_start_upto(tasks: Seq<TaskView>, parents: Seq<bool>, upto: int) -> Option<
    int,
>
    decreases upto,
{
    if upto <= 0 {
        None
    } else if !parents[upto - 1] {
        earlier_of(project_start_upto(tasks, parents, upto - 1), tasks[upto - 1].start)
    } else {
        project_start_upto(tasks, parents, upto - 1)
    }
}

/// The project's start: the earliest start among the tasks without children.
pub open spec fn project_start(tasks: Seq<TaskView>) -> Option<int> {
    project_start_upto(tasks, parent_flags_of(tasks), tasks.len() as int)
}

/// The number of critical tasks without children among the first `upto`.
pub open spec fn critical_count_upto(tasks: Seq<TaskView>, parents: Seq<bool>, upto: int) -> int
    decreases upto,
{
    if upto <= 0 {
        0
    } else {
        critical_count_upto(tasks, parents, upto - 1) + if !parents[upto - 1] && tasks[upto
            - 1].is_critical == Some(true) {
            1int
        } else {
            0int
        }
    }
}

/// The figures of a scheduled task list.
pub open spec fn stats_of(tasks: Seq<TaskView>, calendar: CalendarView) -> CPMStatsView {
    CPMStatsView {
        task_count: tasks.len() as int,
        critical_count: critical_count_upto(tasks, parent_flags_of(tasks), tasks.len() as int),
        project_end: project_finish(tasks),
        duration: match (project_start(tasks), project_finish(tasks)) {
            (Some(start), Some(end)) => count_work_days_spec(calendar, start, end),
            _ => 0,
        },
        error: None,
    }
}

/// The result of a scheduling run.
pub open spec fn calculate_spec(
    tasks: Seq<TaskView>,
    calendar: CalendarView,
    today: Option<int>,
) -> CPMResultView {
    let done = scheduled(tasks, calendar, today);
    CPMResultView { tasks: done, stats: stats_of(done, calendar) }
}

/// Computes the figures of a scheduled task list.
pub fn project_stats(tasks: &[Task], calendar: &Calendar) -> (r: CPMStats)
    requires
        tasks.len() <= i32::MAX,
    ensures
        r@ == stats_of(task_views(tasks@), calendar@),
{
    let ghost views = task_views(tasks@);
    let parents = parent_flags(tasks);
    let project_end = find_project_finish(tasks, &parents);
    let mut project_start: Option<Date> = None;
    let mut critical_count: i32 = 0;
    let mut i: usize = 0;
    while i < tasks.len()
        invariant
            i <= tasks.len(),
            tasks.len() <= i32::MAX,
            views == task_views(tasks@),
            parents@ == parent_flags_of(views),
            day_of(project_start) == project_start_upto(views, parents@, i as int),
            critical_count == critical_count_upto(views, parents@, i as int),
            0 <= critical_count <= i,
        decreases tasks.len() - i,
    {
        if !parents[i] {
            project_start = earlier_date(project_start, tasks[i].start);
            let critical = match tasks[i].is_critical {
                Some(flag) => flag,
                None => false,
            };
            if critical {
                critical_count += 1;
            }
        }
        i += 1;
    }
    let duration = match (project_start, project_end) {
        (Some(start), Some(end)) => count_work_days(start, end, calendar),
        _ => 0,
    };
    CPMStats {
        task_count: tasks.len() as i32,
        critical_count,
        project_end,
        duration,
        error: None,
    }
}

/// Schedules the tasks in place, with `today` as the start of any task that
/// nothing else gives a start, and returns a copy of them with the project's
/// figures.
pub fn calculate_on(tasks: &mut [Task], calendar: &Calendar, today: Option<Date>) -> (r: CPMResult)
    requires
        old(tasks).len() <= i32::MAX,
    ensures
        final(tasks).len() == old(tasks).len(),
        r@ == calculate_spec(task_views(old(tasks)@), calendar@, day_of(today)),
        task_views(final(tasks)@) == r@.tasks,
{
    let successor_map = build_successor_map(tasks);
    forward_pass_on(tasks, calendar, today);
    calculate_parent_dates(tasks, calendar);
    backward_pass(tasks, calendar, &successor_map);
    calculate_float(tasks, calendar, &successor_map);
    mark_critical_path(tasks);
    let stats = project_stats(tasks, calendar);
    CPMResult { tasks: copy_tasks(tasks), stats }
}

/// Schedules the tasks in place and returns a copy of them with the
/// project's figures. A task that nothing else gives a start begins on the
/// day the system clock shows.
pub fn calculate(tasks: &mut [Task], calendar: &Calendar) -> (r: CPMResult)
    requires
        old(tasks).len() <= i32::MAX,
    ensures
        final(tasks).len() == old(tasks).len(),
        exists|today: Option<int>| r@ == calculate_spec(task_views(old(tasks)@), calendar@, today),
        task_views(final(tasks)@) == r@.tasks,
{
    let now = today_date();
    calculate_on(tasks, calendar, now)
}

/// `project_start_upto` is the least start among the tasks without
/// children: it is the start of one of them, and none starts earlier.
pub proof fn lemma_project_start_bound(tasks: Seq<TaskView>, parents: Seq<bool>, upto: int)
    requires
        0 <= upto <= tasks.len(),
    ensures
        forall|j: int|
            0 <= j < upto && !parents[j] && (#[trigger] tasks[j]).start is Some
                ==> project_start_upto(tasks, parents, upto) is Some && project_start_upto(
                tasks,
                parents,
                upto,
            )->0 <= tasks[j].start->0,
        project_start_upto(tasks, parents, upto) is Some ==> exists|j: int|
            0 <= j < upto && !parents[j] && (#[trigger] tasks[j]).start == project_start_upto(
                tasks,
                parents,
                upto,
            ),
    decreases upto,
{
    if upto > 0 {
        lemma_project_start_bound(tasks, parents, upto - 1);
    }
}

/// No more tasks are counted critical than there are.
pub proof fn lemma_critical_count_bound(tasks: Seq<TaskView>, parents: Seq<bool>, upto: int)
    requires
        0 <= upto,
    ensures
        0 <= critical_count_upto(tasks, parents, upto) <= upto,
    decreases upto,
{
    if upto > 0 {
        lemma_critical_count_bound(tasks, parents, upto - 1);
    }
}

} // verus!
