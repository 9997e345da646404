//! The forward pass: earliest start and finish of every task without
//! children, relaxed to a fixed point.

use vstd::prelude::*;

use crate::date_utils::{
    later_date, later_of, same_date, shift_or_keep, shifted_day, today_date, Date,
};
use crate::graph::{
    constraint_kind, constraint_kind_of, duration_offset, find_task, find_task_index,
    get_duration_offset, is_parent_id, link_kind, link_kind_of, parent_flags, parent_flags_of,
    ConstraintKind, LinkKind,
};
use crate::levels::{lemma_same_hierarchy, same_hierarchy};
use crate::types::{
    day_of, task_views, without_dates, Calendar, CalendarView, DependencyView, Task, TaskView,
};

verus! {

/// The most rounds a pass makes before it gives up on reaching a fixed point.
pub const MAX_CPM_ITERATIONS: usize = 50;

/// The earliest start that one dependency allows `task`, or `None` where
/// the predecessor is not in the list or lacks a date.
///
/// With `off` the task's duration offset and `lag` the link's lag, the start
/// lies `1 + lag` working days after the predecessor's finish for a
/// finish-to-start link, `lag` after its start for start-to-start,
/// `lag - off` after its finish for finish-to-finish, and `lag - off` after
/// its start for start-to-finish.
pub open spec fn dependency_start(
    tasks: Seq<TaskView>,
    calendar: CalendarView,
    task: TaskView,
    dependency: DependencyView,
) -> Option<int> {
    match find_task(tasks, dependency.id) {
        Some(p) => match (tasks[p].start, tasks[p].end) {
            (Some(pred_start), Some(pred_end)) => Some(
                match link_kind_of(dependency.link_type) {
                    LinkKind::FinishToStart => shifted_day(calendar, pred_end, 1 + dependency.lag),
                    LinkKind::StartToStart => shifted_day(calendar, pred_start, dependency.lag),
                    LinkKind::FinishToFinish => shifted_day(
                        calendar,
                        pred_end,
                        -duration_offset(task.duration) + dependency.lag,
                    ),
                    LinkKind::StartToFinish => shifted_day(
                        calendar,
                        pred_start,
                        -duration_offset(task.duration) + dependency.lag,
                    ),
                },
            ),
            _ => None,
        },
        None => None,
    }
}

/// The latest of the starts that the first `upto` dependencies of `task`
/// allow.
pub open spec fn dependencies_start(
    tasks: Seq<TaskView>,
    calendar: CalendarView,
    task: TaskView,
    upto: int,
) -> Option<int>
    decreases upto,
{
    if upto <= 0 {
        None
    } else {
        later_of(
            dependencies_start(tasks, calendar, task, upto - 1),
            dependency_start(tasks, calendar, task, task.dependencies[upto - 1]),
        )
    }
}

/// Whether the task must finish on its constraint date.
pub open spec fn finish_is_fixed(task: TaskView) -> bool {
    constraint_kind_of(task.constraint_type) == ConstraintKind::Mfo && task.constraint_date is Some
}

/// The start that a task's constraint makes of the start its dependencies
/// allow.
///
/// Start-no-earlier and finish-no-earlier move the start later where their
/// date asks for it; start-no-later moves it, or failing it the task's
/// present start, earlier; a task without constraint, dependency-given start
/// and present start begins today.
pub open spec fn constrained_start(
    calendar: CalendarView,
    task: TaskView,
    candidate: Option<int>,
    today: Option<int>,
) -> Option<int> {
    match constraint_kind_of(task.constraint_type) {
        ConstraintKind::Snet => later_of(candidate, task.constraint_date),
        ConstraintKind::Snlt => match task.constraint_date {
            Some(date) => {
                let current = if candidate is Some {
                    candidate
                } else {
                    task.start
                };
                if current is Some && date < current->0 {
                    Some(date)
                } else {
                    candidate
                }
            },
            None => candidate,
        },
        ConstraintKind::Fnet => match task.constraint_date {
            Some(date) => later_of(
                candidate,
                Some(shifted_day(calendar, date, -duration_offset(task.duration))),
            ),
            None => candidate,
        },
        ConstraintKind::Fnlt => candidate,
        ConstraintKind::Mfo => candidate,
        ConstraintKind::Asap => if candidate is None && task.start is None {
            today
        } else {
            candidate
        },
    }
}

/// The earliest start of the task at position `i`, given the dates the other
/// tasks have now; `None` where nothing gives the task a start.
pub open spec fn earliest_start(
    tasks: Seq<TaskView>,
    calendar: CalendarView,
    today: Option<int>,
    i: int,
) -> Option<int> {
    let task = tasks[i];
    let constrained = constrained_start(
        calendar,
        task,
        dependencies_start(tasks, calendar, task, task.dependencies.len() as int),
        today,
    );
    if constrained is Some {
        constrained
    } else {
        task.start
    }
}

/// The task at position `i` after one round of the forward pass over it.
///
/// A task that must finish on its constraint date ends there and starts its
/// duration offset before. Any other task starts at its earliest start and,
/// unless its duration is negative, ends its duration offset later; without
/// an earliest start it is left as it is.
pub open spec fn forward_leaf(
    tasks: Seq<TaskView>,
    calendar: CalendarView,
    today: Option<int>,
    i: int,
) -> TaskView {
    let task = tasks[i];
    if finish_is_fixed(task) {
        TaskView {
            start: Some(
                shifted_day(
                    calendar,
                    task.constraint_date->0,
                    -duration_offset(task.duration),
                ),
            ),
            end: task.constraint_date,
            ..task
        }
    } else {
        match earliest_start(tasks, calendar, today, i) {
            Some(start) => TaskView {
                start: Some(start),
                end: if task.duration >= 0 {
                    Some(shifted_day(calendar, start, duration_offset(task.duration)))
                } else {
                    task.end
                },
                ..task
            },
            None => task,
        }
    }
}

/// Whether a round of the forward pass counts the task at position `i` as
/// changed: its start or finish moved, and its finish is not fixed.
pub open spec fn forward_leaf_changed(
    tasks: Seq<TaskView>,
    calendar: CalendarView,
    today: Option<int>,
    i: int,
) -> bool {
    let after = forward_leaf(tasks, calendar, today, i);
    !finish_is_fixed(tasks[i]) && (after.start != tasks[i].start || after.end != tasks[i].end)
}

/// The task at position `i` after one round: tasks with children are left
/// alone, every other task is scheduled from the dates the list had when the
/// round began.
pub open spec fn forward_task(
    tasks: Seq<TaskView>,
    calendar: CalendarView,
    today: Option<int>,
    i: int,
) -> TaskView {
    if is_parent_id(tasks, tasks[i].id) {
        tasks[i]
    } else {
        forward_leaf(tasks, calendar, today, i)
    }
}

/// The task list after one round of the forward pass.
pub open spec fn forward_step(
    tasks: Seq<TaskView>,
    calendar: CalendarView,
    today: Option<int>,
) -> Seq<TaskView> {
    Seq::new(tasks.len(), |i: int| forward_task(tasks, calendar, today, i))
}

/// Whether a round counts one of the first `upto` tasks as changed.
pub open spec fn forward_changed_upto(
    tasks: Seq<TaskView>,
    calendar: CalendarView,
    today: Option<int>,
    upto: int,
) -> bool
    decreases upto,
{
    if upto <= 0 {
        false
    } else {
        forward_changed_upto(tasks, calendar, today, upto - 1) || (!is_parent_id(
            tasks,
            tasks[upto - 1].id,
        ) && forward_leaf_changed(tasks, calendar, today, upto - 1))
    }
}

/// Whether a round of the forward pass counts any task as changed.
pub open spec fn forward_step_changed(
    tasks: Seq<TaskView>,
    calendar: CalendarView,
    today: Option<int>,
) -> bool {
    forward_changed_upto(tasks, calendar, today, tasks.len() as int)
}

/// The task list after the forward pass has made rounds until one changes
/// nothing, and at most `rounds` of them.
pub open spec fn forward_rounds(
    tasks: Seq<TaskView>,
    calendar: CalendarView,
    today: Option<int>,
    rounds: nat,
) -> Seq<TaskView>
    decreases rounds,
{
    if rounds == 0 {
        tasks
    } else if forward_step_changed(tasks, calendar, today) {
        forward_rounds(forward_step(tasks, calendar, today), calendar, today, (rounds - 1) as nat)
    } else {
        forward_step(tasks, calendar, today)
    }
}

/// The number of rounds the forward pass makes when allowed `rounds`.
pub open spec fn forward_rounds_made(
    tasks: Seq<TaskView>,
    calendar: CalendarView,
    today: Option<int>,
    rounds: nat,
) -> nat
    decreases rounds,
{
    if rounds == 0 {
        0
    } else if forward_step_changed(tasks, calendar, today) {
        1 + forward_rounds_made(
            forward_step(tasks, calendar, today),
            calendar,
            today,
            (rounds - 1) as nat,
        )
    } else {
        1
    }
}

/// The task list after the forward pass.
pub open spec fn forward_pass_spec(
    tasks: Seq<TaskView>,
    calendar: CalendarView,
    today: Option<int>,
) -> Seq<TaskView> {
    forward_rounds(tasks, calendar, today, MAX_CPM_ITERATIONS as nat)
}

/// The latest start that the dependencies of the task at `i` allow.
fn latest_dependency_start(tasks: &[Task], i: usize, calendar: &Calendar) -> (r: Option<Date>)
    requires
        i < tasks.len(),
    ensures
        day_of(r) == dependencies_start(
            task_views(tasks@),
            calendar@,
            task_views(tasks@)[i as int],
            task_views(tasks@)[i as int].dependencies.len() as int,
        ),
{
    let ghost views = task_views(tasks@);
    let ghost task = views[i as int];
    let offset = get_duration_offset(tasks[i].duration) as i64;
    let mut latest: Option<Date> = None;
    let mut k: usize = 0;
    while k < tasks[i].dependencies.len()
        invariant
            i < tasks.len(),
            views == task_views(tasks@),
            task == views[i as int],
            offset == duration_offset(task.duration),
            k <= tasks[i as int].dependencies.len(),
            task.dependencies.len() == tasks[i as int].dependencies.len(),
            day_of(latest) == dependencies_start(views, calendar@, task, k as int),
        decreases tasks[i as int].dependencies.len() - k,
    {
        let dependency = &tasks[i].dependencies[k];
        let lag = dependency.lag as i64;
        let allowed: Option<Date> = match find_task_index(tasks, &dependency.id) {
            Some(p) => match (tasks[p].start, tasks[p].end) {
                (Some(pred_start), Some(pred_end)) => Some(
                    match link_kind(&dependency.link_type) {
                        LinkKind::FinishToStart => shift_or_keep(pred_end, 1 + lag, calendar),
                        LinkKind::StartToStart => shift_or_keep(pred_start, lag, calendar),
                        LinkKind::FinishToFinish => shift_or_keep(pred_end, -offset + lag, calendar),
                        LinkKind::StartToFinish => shift_or_keep(
                            pred_start,
                            -offset + lag,
                            calendar,
                        ),
                    },
                ),
                _ => None,
            },
            None => None,
        };
        latest = later_date(latest, allowed);
        k += 1;
    }
    latest
}

/// Applies the constraint of the task at `i` to the start its dependencies
/// allow.
fn apply_constraint(
    tasks: &[Task],
    i: usize,
    kind: ConstraintKind,
    candidate: Option<Date>,
    calendar: &Calendar,
    today: Option<Date>,
) -> (r: Option<Date>)
    requires
        i < tasks.len(),
        kind == constraint_kind_of(task_views(tasks@)[i as int].constraint_type),
    ensures
        day_of(r) == constrained_start(
            calendar@,
            task_views(tasks@)[i as int],
            day_of(candidate),
            day_of(today),
        ),
{
    let task = &tasks[i];
    match kind {
        ConstraintKind::Snet => later_date(candidate, task.constraint_date),
        ConstraintKind::Snlt => match task.constraint_date {
            Some(date) => {
                let current = if candidate.is_some() {
                    candidate
                } else {
                    task.start
                };
                match current {
                    Some(present) => if date.day < present.day {
                        Some(date)
                    } else {
                        candidate
                    },
                    None => candidate,
                }
            },
            None => candidate,
        },
        ConstraintKind::Fnet => match task.constraint_date {
            Some(date) => {
                let offset = get_duration_offset(task.duration) as i64;
                later_date(candidate, Some(shift_or_keep(date, -offset, calendar)))
            },
            None => candidate,
        },
        ConstraintKind::Fnlt => candidate,
        ConstraintKind::Mfo => candidate,
        ConstraintKind::Asap => if candidate.is_none() && task.start.is_none() {
            today
        } else {
            candidate
        },
    }
}

/// The start and finish that one round gives the childless task at `i`.
fn schedule_leaf(tasks: &[Task], i: usize, calendar: &Calendar, today: Option<Date>) -> (r: (
    Option<Date>,
    Option<Date>,
    bool,
))
    requires
        i < tasks.len(),
    ensures
        day_of(r.0) == forward_leaf(task_views(tasks@), calendar@, day_of(today), i as int).start,
        day_of(r.1) == forward_leaf(task_views(tasks@), calendar@, day_of(today), i as int).end,
        r.2 == forward_leaf_changed(task_views(tasks@), calendar@, day_of(today), i as int),
{
    let task = &tasks[i];
    let offset = get_duration_offset(task.duration) as i64;
    let kind = constraint_kind(&task.constraint_type);
    if let ConstraintKind::Mfo = kind {
        if let Some(date) = task.constraint_date {
            return (Some(shift_or_keep(date, -offset, calendar)), Some(date), false);
        }
    }
    let candidate = latest_dependency_start(tasks, i, calendar);
    let constrained = apply_constraint(tasks, i, kind, candidate, calendar, today);
    let earliest = if constrained.is_some() {
        constrained
    } else {
        task.start
    };
    match earliest {
        Some(start) => {
            let end = if task.duration >= 0 {
                Some(shift_or_keep(start, offset, calendar))
            } else {
                task.end
            };
            let changed = !same_date(Some(start), task.start) || !same_date(end, task.end);
            (Some(start), end, changed)
        },
        None => (task.start, task.end, false),
    }
}

/// One round of the forward pass.
fn forward_round(tasks: &mut [Task], calendar: &Calendar, today: Option<Date>) -> (changed: bool)
    ensures
        final(tasks).len() == old(tasks).len(),
        task_views(final(tasks)@) == forward_step(
            task_views(old(tasks)@),
            calendar@,
            day_of(today),
        ),
        changed == forward_step_changed(task_views(old(tasks)@), calendar@, day_of(today)),
{
    let ghost before = task_views(tasks@);
    let count = tasks.len();
    let parents = parent_flags(tasks);
    let mut dates: Vec<(Option<Date>, Option<Date>)> = Vec::new();
    let mut changed = false;
    let mut i: usize = 0;
    while i < count
        invariant
            i <= count,
            count == tasks.len(),
            before == task_views(tasks@),
            parents@ == parent_flags_of(before),
            dates.len() == i,
            forall|j: int|
                0 <= j < i ==> day_of((#[trigger] dates@[j]).0) == forward_task(
                    before,
                    calendar@,
                    day_of(today),
                    j,
                ).start && day_of(dates@[j].1) == forward_task(
                    before,
                    calendar@,
                    day_of(today),
                    j,
                ).end,
            changed == forward_changed_upto(before, calendar@, day_of(today), i as int),
        decreases count - i,
    {
        if parents[i] {
            dates.push((tasks[i].start, tasks[i].end));
        } else {
            let (start, end, moved) = schedule_leaf(tasks, i, calendar, today);
            dates.push((start, end));
            changed = changed || moved;
        }
        i += 1;
    }
    let mut j: usize = 0;
    while j < count
        invariant
            j <= count,
            count == tasks.len(),
            before.len() == count,
            dates.len() == count,
            forall|k: int|
                0 <= k < count ==> day_of((#[trigger] dates@[k]).0) == forward_task(
                    before,
                    calendar@,
                    day_of(today),
                    k,
                ).start && day_of(dates@[k].1) == forward_task(
                    before,
                    calendar@,
                    day_of(today),
                    k,
                ).end,
            forall|k: int|
                0 <= k < j ==> (#[trigger] tasks@[k])@ == forward_task(
                    before,
                    calendar@,
                    day_of(today),
                    k,
                ),
            forall|k: int| j <= k < count ==> (#[trigger] tasks@[k])@ == before[k],
        decreases count - j,
    {
        let (start, end) = dates[j];
        tasks[j].start = start;
        tasks[j].end = end;
        j += 1;
    }
    changed
}

/// Runs the forward pass with `today` as the start of any task that nothing
/// else gives a start. Returns whether the round limit was reached.
pub fn forward_pass_on(tasks: &mut [Task], calendar: &Calendar, today: Option<Date>) -> (limit: bool)
    ensures
        final(tasks).len() == old(tasks).len(),
        task_views(final(tasks)@) == forward_pass_spec(
            task_views(old(tasks)@),
            calendar@,
            day_of(today),
        ),
        limit == (forward_rounds_made(
            task_views(old(tasks)@),
            calendar@,
            day_of(today),
            MAX_CPM_ITERATIONS as nat,
        ) == MAX_CPM_ITERATIONS),
{
    let ghost start = task_views(tasks@);
    let mut iterations: usize = 0;
    let mut changed = true;
    while changed && iterations < MAX_CPM_ITERATIONS
        invariant
            iterations <= MAX_CPM_ITERATIONS,
            tasks.len() == old(tasks).len(),
            start == task_views(old(tasks)@),
            iterations == 0 ==> changed && task_views(tasks@) == start,
            changed ==> forward_pass_spec(start, calendar@, day_of(today)) == forward_rounds(
                task_views(tasks@),
                calendar@,
                day_of(today),
                (MAX_CPM_ITERATIONS - iterations) as nat,
            ),
            !changed ==> forward_pass_spec(start, calendar@, day_of(today)) == task_views(tasks@),
            changed ==> forward_rounds_made(
                start,
                calendar@,
                day_of(today),
                MAX_CPM_ITERATIONS as nat,
            ) == iterations + forward_rounds_made(
                task_views(tasks@),
                calendar@,
                day_of(today),
                (MAX_CPM_ITERATIONS - iterations) as nat,
            ),
            !changed ==> forward_rounds_made(
                start,
                calendar@,
                day_of(today),
                MAX_CPM_ITERATIONS as nat,
            ) == iterations,
        decreases MAX_CPM_ITERATIONS - iterations,
    {
        changed = forward_round(tasks, calendar, today);
        iterations += 1;
    }
    iterations >= MAX_CPM_ITERATIONS
}

/// Runs the forward pass. A task that nothing else gives a start begins on
/// the day the system clock shows. Returns whether the round limit was
/// reached.
pub fn forward_pass(tasks: &mut [Task], calendar: &Calendar) -> (limit: bool)
    ensures
        final(tasks).len() == old(tasks).len(),
        exists|today: Option<int>|
            task_views(final(tasks)@) == forward_pass_spec(
                task_views(old(tasks)@),
                calendar@,
                today,
            ) && limit == (forward_rounds_made(
                task_views(old(tasks)@),
                calendar@,
                today,
                MAX_CPM_ITERATIONS as nat,
            ) == MAX_CPM_ITERATIONS),
{
    let now = today_date();
    forward_pass_on(tasks, calendar, now)
}

/// The task list that the last round of the forward pass starts from.
pub open spec fn forward_last_input(
    tasks: Seq<TaskView>,
    calendar: CalendarView,
    today: Option<int>,
    rounds: nat,
) -> Seq<TaskView>
    decreases rounds,
{
    if rounds <= 1 || !forward_step_changed(tasks, calendar, today) {
        tasks
    } else {
        forward_last_input(
            forward_step(tasks, calendar, today),
            calendar,
            today,
            (rounds - 1) as nat,
        )
    }
}

/// A round of the forward pass keeps length, identifiers and parents, moves
/// nothing but start and finish, and leaves tasks with children alone.
pub proof fn lemma_forward_step_frame(
    tasks: Seq<TaskView>,
    calendar: CalendarView,
    today: Option<int>,
)
    ensures
        same_hierarchy(tasks, forward_step(tasks, calendar, today)),
        forall|i: int|
            0 <= i < tasks.len() ==> without_dates(
                #[trigger] forward_step(tasks, calendar, today)[i],
            ) == without_dates(tasks[i]) && forward_step(tasks, calendar, today)[i].duration
                == tasks[i].duration,
        forall|i: int|
            0 <= i < tasks.len() && parent_flags_of(tasks)[i] ==> #[trigger] forward_step(
                tasks,
                calendar,
                today,
            )[i] == tasks[i],
{
    let after = forward_step(tasks, calendar, today);
    assert forall|j: int| 0 <= j < tasks.len() implies (#[trigger] tasks[j]).id == after[j].id
        && tasks[j].parent_id == after[j].parent_id by {}
}

/// The forward pass keeps length, identifiers and parents, moves nothing but
/// start and finish, and leaves tasks with children alone; its result is
/// what one round makes of the list its last round starts from, and that
/// list differs from the first in nothing but starts and finishes.
pub proof fn lemma_forward_rounds_frame(
    tasks: Seq<TaskView>,
    calendar: CalendarView,
    today: Option<int>,
    rounds: nat,
)
    ensures
        same_hierarchy(tasks, forward_rounds(tasks, calendar, today, rounds)),
        same_hierarchy(tasks, forward_last_input(tasks, calendar, today, rounds)),
        forall|i: int|
            0 <= i < tasks.len() ==> without_dates(
                #[trigger] forward_rounds(tasks, calendar, today, rounds)[i],
            ) == without_dates(tasks[i]) && forward_rounds(tasks, calendar, today, rounds)[i].duration
                == tasks[i].duration,
        forall|i: int|
            0 <= i < tasks.len() ==> without_dates(
                #[trigger] forward_last_input(tasks, calendar, today, rounds)[i],
            ) == without_dates(tasks[i]) && forward_last_input(
                tasks,
                calendar,
                today,
                rounds,
            )[i].duration == tasks[i].duration,
        forall|i: int|
            0 <= i < tasks.len() && parent_flags_of(tasks)[i] ==> #[trigger] forward_rounds(
                tasks,
                calendar,
                today,
                rounds,
            )[i] == tasks[i],
        rounds >= 1 ==> forward_rounds(tasks, calendar, today, rounds) == forward_step(
            forward_last_input(tasks, calendar, today, rounds),
            calendar,
            today,
        ),
    decreases rounds,
{
    lemma_forward_step_frame(tasks, calendar, today);
    if rounds > 0 && forward_step_changed(tasks, calendar, today) {
        let next = forward_step(tasks, calendar, today);
        lemma_forward_rounds_frame(next, calendar, today, (rounds - 1) as nat);
        lemma_same_hierarchy(tasks, next);
        let last = forward_rounds(next, calendar, today, (rounds - 1) as nat);
        let input = forward_last_input(next, calendar, today, (rounds - 1) as nat);
        assert forall|j: int| 0 <= j < tasks.len() implies (#[trigger] tasks[j]).id == last[j].id
            && tasks[j].parent_id == last[j].parent_id by {}
        assert forall|j: int| 0 <= j < tasks.len() implies (#[trigger] tasks[j]).id == input[j].id
            && tasks[j].parent_id == input[j].parent_id by {}
        assert forall|i: int| 0 <= i < tasks.len() implies without_dates(#[trigger] last[i])
            == without_dates(tasks[i]) && last[i].duration == tasks[i].duration by {}
        assert forall|i: int| 0 <= i < tasks.len() implies without_dates(#[trigger] input[i])
            == without_dates(tasks[i]) && input[i].duration == tasks[i].duration by {}
        assert forall|i: int| 0 <= i < tasks.len() && parent_flags_of(tasks)[i] implies (
        #[trigger] last[i]) == tasks[i] by {}
    }
}

/// The start that the dependencies allow is not before the start that any
/// one of them allows.
pub proof fn lemma_dependencies_start_bound(
    tasks: Seq<TaskView>,
    calendar: CalendarView,
    task: TaskView,
    upto: int,
    k: int,
)
    requires
        0 <= k < upto,
        dependency_start(tasks, calendar, task, task.dependencies[k]) is Some,
    ensures
        dependencies_start(tasks, calendar, task, upto) is Some,
        dependencies_start(tasks, calendar, task, upto)->0 >= dependency_start(
            tasks,
            calendar,
            task,
            task.dependencies[k],
        )->0,
    decreases upto,
{
    if k < upto - 1 {
        lemma_dependencies_start_bound(tasks, calendar, task, upto - 1, k);
    }
}

/// A round that moves no task counts no task as changed.
pub proof fn lemma_forward_unchanged(
    tasks: Seq<TaskView>,
    calendar: CalendarView,
    today: Option<int>,
    upto: int,
)
    requires
        forward_step(tasks, calendar, today) == tasks,
        upto <= tasks.len(),
    ensures
        !forward_changed_upto(tasks, calendar, today, upto),
    decreases upto,
{
    if upto > 0 {
        lemma_forward_unchanged(tasks, calendar, today, upto - 1);
    }
}

/// The forward pass leaves alone a list that one round leaves alone.
pub proof fn lemma_forward_pass_identity(
    tasks: Seq<TaskView>,
    calendar: CalendarView,
    today: Option<int>,
)
    requires
        forward_step(tasks, calendar, today) == tasks,
    ensures
        forward_pass_spec(tasks, calendar, today) == tasks,
{
    lemma_forward_unchanged(tasks, calendar, today, tasks.len() as int);
}

/// Whether no task must finish on a constraint date.
pub open spec fn no_fixed_finish(tasks: Seq<TaskView>) -> bool {
    forall|i: int| 0 <= i < tasks.len() ==> !finish_is_fixed(#[trigger] tasks[i])
}

/// Where a round counts none of the first `upto` tasks as changed, none of
/// those without children is.
pub proof fn lemma_forward_none_changed(
    tasks: Seq<TaskView>,
    calendar: CalendarView,
    today: Option<int>,
    upto: int,
    i: int,
)
    requires
        !forward_changed_upto(tasks, calendar, today, upto),
        0 <= i < upto,
        !is_parent_id(tasks, tasks[i].id),
    ensures
        !forward_leaf_changed(tasks, calendar, today, i),
    decreases upto,
{
    if i < upto - 1 {
        lemma_forward_none_changed(tasks, calendar, today, upto - 1, i);
    }
}

/// A round that counts no task as changed leaves the list as it is, where
/// no task must finish on a constraint date.
pub proof fn lemma_forward_quiet_round(
    tasks: Seq<TaskView>,
    calendar: CalendarView,
    today: Option<int>,
)
    requires
        no_fixed_finish(tasks),
        !forward_step_changed(tasks, calendar, today),
    ensures
        forward_step(tasks, calendar, today) == tasks,
{
    assert(forward_step(tasks, calendar, today) =~= tasks) by {
        assert forall|i: int| 0 <= i < tasks.len() implies forward_step(
            tasks,
            calendar,
            today,
        )[i] == tasks[i] by {
            if !is_parent_id(tasks, tasks[i].id) {
                lemma_forward_none_changed(tasks, calendar, today, tasks.len() as int, i);
            }
        }
    }
}

/// Where no task must finish on a constraint date and the forward pass
/// stops before it has made all the rounds it is allowed, one more round
/// leaves its result as it is.
pub proof fn lemma_forward_rounds_settle(
    tasks: Seq<TaskView>,
    calendar: CalendarView,
    today: Option<int>,
    rounds: nat,
)
    requires
        no_fixed_finish(tasks),
        forward_rounds_made(tasks, calendar, today, rounds) < rounds,
    ensures
        forward_step(forward_rounds(tasks, calendar, today, rounds), calendar, today)
            == forward_rounds(tasks, calendar, today, rounds),
    decreases rounds,
{
    if rounds > 0 {
        if forward_step_changed(tasks, calendar, today) {
            let next = forward_step(tasks, calendar, today);
            assert(no_fixed_finish(next)) by {
                assert forall|i: int| 0 <= i < next.len() implies !finish_is_fixed(
                    #[trigger] next[i],
                ) by {}
            }
            lemma_forward_rounds_settle(next, calendar, today, (rounds - 1) as nat);
        } else {
            lemma_forward_quiet_round(tasks, calendar, today);
        }
    }
}

} // verus!
