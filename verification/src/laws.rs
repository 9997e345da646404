//! What holds of every schedule.
//!
//! Each law is a proof about the result of a scheduling run, or of one of
//! its passes, stated over the views of the tasks.

use vstd::prelude::*;

use crate::backward::{
    backward_step, lemma_backward_rounds_identity, lemma_project_finish_bound, links_at,
    project_finish,
};
use crate::cpm::{
    calculate_spec, lemma_critical_count_bound, lemma_project_start_bound, project_start, scheduled,
};
use crate::critical::{critical_roll, lemma_critical_roll, lemma_has_critical_child, mark_leaves};
use crate::date_utils::{
    add_work_days_spec, count_work_days_spec, day_in_range, is_work_day_spec,
    lemma_add_work_days_lands_on_work_day, lemma_signed_after_shift, lemma_span_of_shift,
    lemma_span_of_shift_back, lemma_span_to_first_work_day, work_days_signed_spec,
};
use crate::float::{
    children_float, float_leaves, float_roll, lemma_children_float_bound, lemma_children_float_same,
    lemma_float_roll, lemma_least_slack_same, total_float_of,
};
use crate::forward::{
    finish_is_fixed, forward_pass_spec, forward_rounds_made, forward_step,
    lemma_dependencies_start_bound, lemma_forward_pass_identity, lemma_forward_rounds_settle,
    no_fixed_finish, MAX_CPM_ITERATIONS,
};
use crate::frames::{
    after_backward, after_float, after_forward, after_rollup, lemma_backward_leaf_result,
    lemma_float_frame, lemma_forward_leaf_result, lemma_late_passes_keep, lemma_mark_frame,
    lemma_project_finish_kept, lemma_run_frames, lemma_run_inputs,
};
use crate::graph::{
    constraint_kind_of, deepest_of, depths_of, duration_offset, find_task, hierarchy_ok,
    lemma_successor_map_same, link_kind_of, parent_flags_of, successor_map_of, ConstraintKind,
    LinkKind,
};
use crate::levels::{
    lemma_children_one_deeper, lemma_level_rounds_identity, lemma_rolled_levels_settled,
    lemma_same_hierarchy,
};
use crate::rollup::{
    children_end, children_start, date_roll, is_dated_child, lemma_children_dates_bound,
    lemma_children_dates_same, lemma_date_roll, rolled_up,
};
use crate::types::{CalendarView, TaskView};

verus! {

/// Leaf consistency. A scheduled task without children whose finish is not
/// fixed, whose duration is not negative and whose start is a working day,
/// or whose duration is 1, ends its duration offset after its start: for a
/// duration of at least 1 the working days from start to finish, both
/// included, are the duration, and for a milestone start and finish are the
/// same day. This holds wherever the finish lies in the handled range.
pub proof fn law_leaf_consistency(
    tasks: Seq<TaskView>,
    calendar: CalendarView,
    today: Option<int>,
    i: int,
)
    requires
        0 <= i < tasks.len(),
        !parent_flags_of(tasks)[i],
        !finish_is_fixed(tasks[i]),
        tasks[i].duration >= 0,
        scheduled(tasks, calendar, today)[i].start is Some,
        is_work_day_spec(calendar, scheduled(tasks, calendar, today)[i].start->0)
            || tasks[i].duration == 1,
        add_work_days_spec(
            calendar,
            scheduled(tasks, calendar, today)[i].start->0,
            duration_offset(tasks[i].duration),
        ) is Some,
    ensures
        ({
            let task = scheduled(tasks, calendar, today)[i];
            &&& task.duration == tasks[i].duration
            &&& task.end is Some
            &&& task.duration >= 1 ==> count_work_days_spec(calendar, task.start->0, task.end->0)
                == task.duration
            &&& task.duration == 0 ==> task.end == task.start
        }),
{
    lemma_run_frames(tasks, calendar, today, i);
    lemma_forward_leaf_result(tasks, calendar, today, i);
    let task = scheduled(tasks, calendar, today)[i];
    let start = task.start->0;
    if is_work_day_spec(calendar, start) {
        lemma_span_of_shift(calendar, start, duration_offset(tasks[i].duration));
    } else {
        lemma_span_to_first_work_day(calendar, start);
    }
}

/// Leaf consistency of a task that must finish on its constraint date. Where
/// that date is a working day and the start lies in the handled range, the
/// scheduled task ends on the date, and the working days from start to
/// finish, both included, are its duration, or one day for a milestone,
/// whose start and finish are the same.
pub proof fn law_fixed_finish_consistency(
    tasks: Seq<TaskView>,
    calendar: CalendarView,
    today: Option<int>,
    i: int,
)
    requires
        0 <= i < tasks.len(),
        !parent_flags_of(tasks)[i],
        finish_is_fixed(tasks[i]),
        is_work_day_spec(calendar, tasks[i].constraint_date->0),
        add_work_days_spec(
            calendar,
            tasks[i].constraint_date->0,
            -duration_offset(tasks[i].duration),
        ) is Some,
    ensures
        ({
            let task = scheduled(tasks, calendar, today)[i];
            &&& task.duration == tasks[i].duration
            &&& task.end == tasks[i].constraint_date
            &&& task.start is Some
            &&& task.duration >= 1 ==> count_work_days_spec(calendar, task.start->0, task.end->0)
                == task.duration
            &&& task.duration <= 0 ==> task.end == task.start
        }),
{
    lemma_run_frames(tasks, calendar, today, i);
    lemma_forward_leaf_result(tasks, calendar, today, i);
    let date = tasks[i].constraint_date->0;
    lemma_span_of_shift_back(calendar, date, duration_offset(tasks[i].duration));
}

/// Constraint respect, start no earlier. A scheduled task without children
/// that may start no earlier than its constraint date has a start, and that
/// start is not before the date.
pub proof fn law_start_no_earlier_respected(
    tasks: Seq<TaskView>,
    calendar: CalendarView,
    today: Option<int>,
    i: int,
)
    requires
        0 <= i < tasks.len(),
        !parent_flags_of(tasks)[i],
        constraint_kind_of(tasks[i].constraint_type) == ConstraintKind::Snet,
        tasks[i].constraint_date is Some,
    ensures
        scheduled(tasks, calendar, today)[i].start is Some,
        scheduled(tasks, calendar, today)[i].start->0 >= tasks[i].constraint_date->0,
{
    lemma_run_frames(tasks, calendar, today, i);
    lemma_forward_leaf_result(tasks, calendar, today, i);
}

/// Working-day landing of the finish. The finish of a scheduled task without
/// children is a working day, where the task has a start, its duration is
/// not negative, its finish is not fixed by constraint and lies in the
/// handled range.
pub proof fn law_finish_is_work_day(
    tasks: Seq<TaskView>,
    calendar: CalendarView,
    today: Option<int>,
    i: int,
)
    requires
        0 <= i < tasks.len(),
        !parent_flags_of(tasks)[i],
        !finish_is_fixed(tasks[i]),
        tasks[i].duration >= 0,
        scheduled(tasks, calendar, today)[i].start is Some,
        add_work_days_spec(
            calendar,
            scheduled(tasks, calendar, today)[i].start->0,
            duration_offset(tasks[i].duration),
        ) is Some,
    ensures
        scheduled(tasks, calendar, today)[i].end is Some,
        is_work_day_spec(calendar, scheduled(tasks, calendar, today)[i].end->0),
{
    lemma_run_frames(tasks, calendar, today, i);
    lemma_forward_leaf_result(tasks, calendar, today, i);
    let task = scheduled(tasks, calendar, today)[i];
    lemma_add_work_days_lands_on_work_day(
        calendar,
        task.start->0,
        duration_offset(tasks[i].duration),
    );
}

/// Constraint respect, finish no later. Where some task without children
/// has a finish, a scheduled task without children that may finish no later
/// than its constraint date has a late finish, and that late finish is not
/// after the date.
pub proof fn law_finish_no_later_caps_late_finish(
    tasks: Seq<TaskView>,
    calendar: CalendarView,
    today: Option<int>,
    i: int,
)
    requires
        0 <= i < tasks.len(),
        !parent_flags_of(tasks)[i],
        constraint_kind_of(tasks[i].constraint_type) == ConstraintKind::Fnlt,
        tasks[i].constraint_date is Some,
        project_finish(scheduled(tasks, calendar, today)) is Some,
    ensures
        scheduled(tasks, calendar, today)[i].late_finish is Some,
        scheduled(tasks, calendar, today)[i].late_finish->0 <= tasks[i].constraint_date->0,
{
    lemma_project_finish_kept(tasks, calendar, today);
    lemma_run_frames(tasks, calendar, today, i);
    lemma_backward_leaf_result(tasks, calendar, today, i);
}

/// Working-day landing of the late start. Where some task without children
/// has a finish, the late start of a scheduled task without children is a
/// working day, provided it lies in the handled range.
pub proof fn law_late_start_is_work_day(
    tasks: Seq<TaskView>,
    calendar: CalendarView,
    today: Option<int>,
    i: int,
)
    requires
        0 <= i < tasks.len(),
        !parent_flags_of(tasks)[i],
        project_finish(scheduled(tasks, calendar, today)) is Some,
        scheduled(tasks, calendar, today)[i].late_finish is Some,
        add_work_days_spec(
            calendar,
            scheduled(tasks, calendar, today)[i].late_finish->0,
            -duration_offset(tasks[i].duration),
        ) is Some,
    ensures
        scheduled(tasks, calendar, today)[i].late_start is Some,
        is_work_day_spec(calendar, scheduled(tasks, calendar, today)[i].late_start->0),
{
    lemma_project_finish_kept(tasks, calendar, today);
    lemma_run_frames(tasks, calendar, today, i);
    lemma_backward_leaf_result(tasks, calendar, today, i);
    let task = scheduled(tasks, calendar, today)[i];
    lemma_add_work_days_lands_on_work_day(
        calendar,
        task.late_finish->0,
        -duration_offset(tasks[i].duration),
    );
}

/// Float bounds. A scheduled task without children has a total and a free
/// float; the free float is not above the total float, and is not negative
/// unless the total float is.
pub proof fn law_free_float_within_total(
    tasks: Seq<TaskView>,
    calendar: CalendarView,
    today: Option<int>,
    i: int,
)
    requires
        0 <= i < tasks.len(),
        !parent_flags_of(tasks)[i],
    ensures
        ({
            let task = scheduled(tasks, calendar, today)[i];
            &&& task.total_float_days is Some
            &&& task.free_float_days is Some
            &&& task.free_float_days->0 <= task.total_float_days->0
            &&& task.total_float_days->0 >= 0 ==> task.free_float_days->0 >= 0
            &&& task.total_float_days == Some(
                total_float_of(calendar, scheduled(tasks, calendar, today)[i]),
            )
        }),
{
    lemma_run_frames(tasks, calendar, today, i);
    let backward = after_backward(tasks, calendar, today);
    lemma_float_frame(backward, calendar, successor_map_of(tasks));
}

/// Critical leaf. A scheduled task without children is marked, and it is
/// critical exactly when its total float is 0 or less.
pub proof fn law_critical_leaf(
    tasks: Seq<TaskView>,
    calendar: CalendarView,
    today: Option<int>,
    i: int,
)
    requires
        0 <= i < tasks.len(),
        !parent_flags_of(tasks)[i],
    ensures
        ({
            let task = scheduled(tasks, calendar, today)[i];
            &&& task.total_float_days is Some
            &&& task.is_critical == Some(task.total_float_days->0 <= 0)
        }),
{
    lemma_run_frames(tasks, calendar, today, i);
    law_free_float_within_total(tasks, calendar, today, i);
    let floated = after_float(tasks, calendar, today);
    lemma_same_hierarchy(tasks, floated);
    lemma_mark_frame(floated);
}

/// Parent consistency. In a well-formed hierarchy a scheduled task with
/// children starts with the earliest start and ends with the latest finish
/// among its children that have both dates: no such child starts earlier or
/// ends later, and one starts, and one ends, on the same day. Where the
/// task has a start and a finish its duration is the count of working days
/// between them, both included.
pub proof fn law_parent_consistency(
    tasks: Seq<TaskView>,
    calendar: CalendarView,
    today: Option<int>,
    i: int,
)
    requires
        hierarchy_ok(tasks),
        0 <= i < tasks.len(),
        parent_flags_of(tasks)[i],
    ensures
        ({
            let done = scheduled(tasks, calendar, today);
            let first = children_start(done, done[i].id, done.len() as int);
            let last = children_end(done, done[i].id, done.len() as int);
            &&& done.len() == tasks.len()
            &&& first is Some ==> done[i].start == first
            &&& last is Some ==> done[i].end == last
            &&& done[i].start is Some && done[i].end is Some ==> done[i].duration
                == count_work_days_spec(calendar, done[i].start->0, done[i].end->0)
            &&& done[i] == rolled_up(done, calendar, i)
            &&& forall|j: int|
                0 <= j < done.len() && is_dated_child(done, done[i].id, j)
                    ==> done[i].start is Some && done[i].start->0 <= (#[trigger] done[j]).start->0
                    && done[i].end is Some && done[i].end->0 >= done[j].end->0
            &&& first is Some ==> exists|j: int|
                0 <= j < done.len() && is_dated_child(done, done[i].id, j) && (
                #[trigger] done[j]).start == done[i].start
            &&& last is Some ==> exists|j: int|
                0 <= j < done.len() && is_dated_child(done, done[i].id, j) && (
                #[trigger] done[j]).end == done[i].end
        }),
{
    let forward = after_forward(tasks, calendar, today);
    let rolled = after_rollup(tasks, calendar, today);
    let done = scheduled(tasks, calendar, today);
    lemma_run_frames(tasks, calendar, today, i);
    lemma_same_hierarchy(tasks, forward);
    lemma_children_one_deeper(forward);
    lemma_date_roll(calendar);
    lemma_rolled_levels_settled(forward, date_roll(calendar), i);
    assert forall|j: int| 0 <= j < rolled.len() implies (#[trigger] rolled[j]).parent_id
        == done[j].parent_id && rolled[j].start == done[j].start && rolled[j].end
        == done[j].end by {
        lemma_late_passes_keep(tasks, calendar, today, j);
    }
    lemma_children_dates_same(rolled, done, done[i].id, done.len() as int);
    lemma_children_dates_bound(done, done[i].id, done.len() as int);
}

/// Float of a task with children. In a well-formed hierarchy a scheduled
/// task with children has no free float, and its total float is the least
/// total float among its children: no child has less, and one has as much.
/// Where no child has a total float it is 0.
pub proof fn law_parent_float(
    tasks: Seq<TaskView>,
    calendar: CalendarView,
    today: Option<int>,
    i: int,
)
    requires
        hierarchy_ok(tasks),
        0 <= i < tasks.len(),
        parent_flags_of(tasks)[i],
    ensures
        ({
            let done = scheduled(tasks, calendar, today);
            &&& done.len() == tasks.len()
            &&& done[i].free_float_days == Some(0int)
            &&& done[i].total_float_days == Some(
                match children_float(done, done[i].id, done.len() as int) {
                    Some(least) => least,
                    None => 0,
                },
            )
            &&& forall|j: int|
                0 <= j < done.len() && (#[trigger] done[j]).parent_id == Some(done[i].id)
                    && done[j].total_float_days is Some ==> done[i].total_float_days->0
                    <= done[j].total_float_days->0
            &&& children_float(done, done[i].id, done.len() as int) is Some ==> exists|j: int|
                0 <= j < done.len() && (#[trigger] done[j]).parent_id == Some(done[i].id)
                    && done[j].total_float_days == done[i].total_float_days
        }),
{
    let backward = after_backward(tasks, calendar, today);
    let leaves = float_leaves(backward, calendar, successor_map_of(tasks));
    let floated = after_float(tasks, calendar, today);
    let done = scheduled(tasks, calendar, today);
    lemma_run_frames(tasks, calendar, today, i);
    lemma_same_hierarchy(tasks, backward);
    lemma_same_hierarchy(backward, leaves);
    lemma_children_one_deeper(leaves);
    lemma_float_roll();
    lemma_rolled_levels_settled(leaves, float_roll(), i);
    assert forall|j: int| 0 <= j < floated.len() implies (#[trigger] floated[j]).parent_id
        == done[j].parent_id && floated[j].total_float_days == done[j].total_float_days by {
        lemma_late_passes_keep(tasks, calendar, today, j);
    }
    lemma_children_float_same(floated, done, done[i].id, done.len() as int);
    lemma_children_float_bound(done, done[i].id, done.len() as int);
}

/// Critical parent. In a well-formed hierarchy a scheduled task with
/// children is marked, and it is critical exactly when one of its children
/// is.
pub proof fn law_critical_parent(
    tasks: Seq<TaskView>,
    calendar: CalendarView,
    today: Option<int>,
    i: int,
)
    requires
        hierarchy_ok(tasks),
        0 <= i < tasks.len(),
        parent_flags_of(tasks)[i],
    ensures
        ({
            let done = scheduled(tasks, calendar, today);
            &&& done.len() == tasks.len()
            &&& done[i].is_critical == Some(
                exists|j: int|
                    0 <= j < done.len() && (#[trigger] done[j]).parent_id == Some(done[i].id)
                        && done[j].is_critical == Some(true),
            )
        }),
{
    let floated = after_float(tasks, calendar, today);
    let leaves = mark_leaves(floated);
    let done = scheduled(tasks, calendar, today);
    lemma_run_frames(tasks, calendar, today, i);
    lemma_same_hierarchy(tasks, floated);
    lemma_same_hierarchy(floated, leaves);
    lemma_children_one_deeper(leaves);
    lemma_critical_roll();
    lemma_rolled_levels_settled(leaves, critical_roll(), i);
    lemma_has_critical_child(done, done[i].id, done.len() as int);
}

/// Finish-to-start links honoured. Take a task list that one more round of
/// the forward pass leaves as it is, and in it a task without children
/// whose finish is not fixed, with a finish-to-start dependency of lag
/// `lag` on a task that has both dates. If the day `1 + lag` working days
/// after the predecessor's finish lies in the handled range, and a
/// start-no-later constraint of the task does not ask for a start before
/// that day, then the task has a start, and the signed count of working
/// days from the predecessor's finish to it is at least `1 + lag`.
pub proof fn law_finish_to_start_honoured(
    tasks: Seq<TaskView>,
    calendar: CalendarView,
    today: Option<int>,
    i: int,
    k: int,
)
    requires
        forward_step(tasks, calendar, today) == tasks,
        0 <= i < tasks.len(),
        !parent_flags_of(tasks)[i],
        !finish_is_fixed(tasks[i]),
        0 <= k < tasks[i].dependencies.len(),
        link_kind_of(tasks[i].dependencies[k].link_type) == LinkKind::FinishToStart,
        find_task(tasks, tasks[i].dependencies[k].id) is Some,
        tasks[find_task(tasks, tasks[i].dependencies[k].id)->0].start is Some,
        tasks[find_task(tasks, tasks[i].dependencies[k].id)->0].end is Some,
        add_work_days_spec(
            calendar,
            tasks[find_task(tasks, tasks[i].dependencies[k].id)->0].end->0,
            1 + tasks[i].dependencies[k].lag,
        ) is Some,
        constraint_kind_of(tasks[i].constraint_type) == ConstraintKind::Snlt
            && tasks[i].constraint_date is Some ==> tasks[i].constraint_date->0
            >= add_work_days_spec(
            calendar,
            tasks[find_task(tasks, tasks[i].dependencies[k].id)->0].end->0,
            1 + tasks[i].dependencies[k].lag,
        )->0,
        tasks[i].start is Some ==> day_in_range(tasks[i].start->0),
    ensures
        tasks[i].start is Some,
        work_days_signed_spec(
            calendar,
            tasks[find_task(tasks, tasks[i].dependencies[k].id)->0].end->0,
            tasks[i].start->0,
        ) >= 1 + tasks[i].dependencies[k].lag,
{
    let task = tasks[i];
    let dependency = task.dependencies[k];
    let p = find_task(tasks, dependency.id)->0;
    let finish = tasks[p].end->0;
    lemma_dependencies_start_bound(
        tasks,
        calendar,
        task,
        task.dependencies.len() as int,
        k,
    );
    lemma_signed_after_shift(calendar, finish, 1 + dependency.lag, task.start->0);
}

/// Whether one more round of the forward pass, and one more round of the
/// backward pass, leave the list as it is.
pub open spec fn is_settled(tasks: Seq<TaskView>, calendar: CalendarView, today: Option<int>) -> bool {
    &&& forward_step(tasks, calendar, today) == tasks
    &&& project_finish(tasks) matches Some(finish) ==> backward_step(
        tasks,
        calendar,
        parent_flags_of(tasks),
        successor_map_of(tasks),
        finish,
    ) == tasks
}

/// Idempotence. In a well-formed hierarchy, a schedule that one more round
/// of the forward pass and one more round of the backward pass leave as it
/// is comes out of a second run unchanged.
pub proof fn law_rerun_reproduces(
    tasks: Seq<TaskView>,
    calendar: CalendarView,
    today: Option<int>,
    again: Option<int>,
)
    requires
        hierarchy_ok(tasks),
        is_settled(scheduled(tasks, calendar, today), calendar, again),
    ensures
        scheduled(scheduled(tasks, calendar, today), calendar, again) == scheduled(
            tasks,
            calendar,
            today,
        ),
{
    let backward = after_backward(tasks, calendar, today);
    let floated = after_float(tasks, calendar, today);
    let done = scheduled(tasks, calendar, today);
    let links = successor_map_of(tasks);
    lemma_run_inputs(tasks, calendar, today);
    lemma_same_hierarchy(tasks, done);
    lemma_same_hierarchy(tasks, backward);
    lemma_successor_map_same(tasks, done);
    // The forward pass.
    lemma_forward_pass_identity(done, calendar, again);
    // The parent rollup.
    assert forall|i: int| 0 <= i < done.len() && parent_flags_of(done)[i] implies date_roll(
        calendar,
    )(done, i) == #[trigger] done[i] by {
        law_parent_consistency(tasks, calendar, today, i);
    }
    lemma_level_rounds_identity(
        done,
        parent_flags_of(done),
        depths_of(done),
        deepest_of(done) as int,
        date_roll(calendar),
    );
    // The backward pass.
    match project_finish(done) {
        Some(finish) => {
            lemma_backward_rounds_identity(
                done,
                calendar,
                parent_flags_of(done),
                links,
                finish,
                MAX_CPM_ITERATIONS as nat,
            );
        },
        None => {},
    }
    // Float.
    lemma_float_frame(backward, calendar, links);
    assert forall|j: int| 0 <= j < backward.len() implies (#[trigger] backward[j]).start
        == done[j].start && backward[j].end == done[j].end by {
        lemma_late_passes_keep(tasks, calendar, today, j);
    }
    assert(float_leaves(done, calendar, links) =~= done) by {
        assert forall|i: int| 0 <= i < done.len() implies float_leaves(done, calendar, links)[i]
            == done[i] by {
            if !parent_flags_of(done)[i] {
                lemma_late_passes_keep(tasks, calendar, today, i);
                lemma_least_slack_same(
                    backward,
                    done,
                    calendar,
                    parent_flags_of(done),
                    i,
                    links_at(links, i),
                    links_at(links, i).len() as int,
                );
            }
        }
    }
    assert forall|i: int| 0 <= i < done.len() && parent_flags_of(done)[i] implies float_roll()(
        done,
        i,
    ) == #[trigger] done[i] by {
        law_parent_float(tasks, calendar, today, i);
    }
    lemma_level_rounds_identity(
        done,
        parent_flags_of(done),
        depths_of(done),
        deepest_of(done) as int,
        float_roll(),
    );
    // The critical path.
    assert(mark_leaves(done) =~= mark_leaves(floated)) by {
        assert forall|i: int| 0 <= i < done.len() implies mark_leaves(done)[i] == mark_leaves(
            floated,
        )[i] by {
            lemma_run_frames(tasks, calendar, today, i);
        }
    }
}

/// Convergence of the forward pass. Where no task must finish on a
/// constraint date and the forward pass stops before its round limit, its
/// result is a list that one more round leaves as it is: the list of which
/// `law_finish_to_start_honoured` speaks.
pub proof fn law_forward_pass_settles(
    tasks: Seq<TaskView>,
    calendar: CalendarView,
    today: Option<int>,
)
    requires
        no_fixed_finish(tasks),
        forward_rounds_made(tasks, calendar, today, MAX_CPM_ITERATIONS as nat)
            < MAX_CPM_ITERATIONS,
    ensures
        forward_step(forward_pass_spec(tasks, calendar, today), calendar, today)
            == forward_pass_spec(tasks, calendar, today),
{
    lemma_forward_rounds_settle(
        tasks,
        calendar,
        today,
        MAX_CPM_ITERATIONS as nat,
    );
}

/// The project's figures. The run counts every task; the project's finish
/// is the latest finish among the scheduled tasks without children, no such
/// task finishing later and one finishing on that day; the critical tasks
/// counted are no more than the tasks; and the project's duration is the
/// count of working days from the earliest start among the tasks without
/// children to the project's finish, both included, or 0 where either is
/// unknown.
pub proof fn law_project_figures(tasks: Seq<TaskView>, calendar: CalendarView, today: Option<int>)
    ensures
        ({
            let result = calculate_spec(tasks, calendar, today);
            let done = result.tasks;
            let leaves = parent_flags_of(done);
            &&& done == scheduled(tasks, calendar, today)
            &&& done.len() == tasks.len()
            &&& result.stats.task_count == tasks.len()
            &&& 0 <= result.stats.critical_count <= tasks.len()
            &&& result.stats.error is None
            &&& forall|j: int|
                0 <= j < done.len() && !leaves[j] && (#[trigger] done[j]).end is Some
                    ==> result.stats.project_end is Some && result.stats.project_end->0
                    >= done[j].end->0
            &&& result.stats.project_end is Some ==> exists|j: int|
                0 <= j < done.len() && !leaves[j] && (#[trigger] done[j]).end
                    == result.stats.project_end
            &&& forall|j: int|
                0 <= j < done.len() && !leaves[j] && (#[trigger] done[j]).start is Some
                    ==> project_start(done) is Some && project_start(
                    done,
                )->0 <= done[j].start->0
            &&& result.stats.duration == match (project_start(done), project_finish(done)) {
                (Some(start), Some(end)) => count_work_days_spec(calendar, start, end),
                _ => 0,
            }
            &&& result.stats.duration >= 0
        }),
{
    let done = scheduled(tasks, calendar, today);
    let leaves = parent_flags_of(done);
    lemma_run_inputs(tasks, calendar, today);
    lemma_project_finish_bound(done, leaves, done.len() as int);
    lemma_project_start_bound(done, leaves, done.len() as int);
    lemma_critical_count_bound(done, leaves, done.len() as int);
}

} // verus!
