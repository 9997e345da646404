//! What each pass of a scheduling run leaves alone.
//!
//! A run is a chain of passes, and each pass writes a few fields of the
//! tasks and nothing else. The lemmas here say which, pass by pass and for
//! the run as a whole; the laws of the schedule rest on them.

use vstd::prelude::*;

use crate::backward::{
    backward_last_input, backward_leaf, backward_pass_spec, lemma_backward_rounds_frame,
    lemma_project_finish_same, links_at, project_finish,
};
use crate::cpm::scheduled;
use crate::critical::{critical_roll, lemma_critical_roll, mark_critical_path_spec, mark_leaves};
use crate::float::{calculate_float_spec, float_leaves, float_roll, lemma_float_roll};
use crate::forward::{
    forward_last_input, forward_leaf, forward_pass_spec, lemma_forward_rounds_frame,
    MAX_CPM_ITERATIONS,
};
use crate::graph::{deepest_of, depths_of, parent_flags_of, successor_map_of, SuccessorEntryView};
use crate::levels::{
    lemma_level_rounds_hierarchy, lemma_level_rounds_keep, lemma_level_rounds_leaves,
    lemma_same_hierarchy, roll_keeps, same_hierarchy, Keep,
};
use crate::rollup::{calculate_parent_dates_spec, date_roll, lemma_date_roll};
use crate::types::{
    without_dates, without_float, without_late_dates, without_mark, CalendarView, TaskView,
};

verus! {

/// The task list after the forward pass of a run.
pub open spec fn after_forward(
    tasks: Seq<TaskView>,
    calendar: CalendarView,
    today: Option<int>,
) -> Seq<TaskView> {
    forward_pass_spec(tasks, calendar, today)
}

/// The task list after the parent rollup of a run.
pub open spec fn after_rollup(
    tasks: Seq<TaskView>,
    calendar: CalendarView,
    today: Option<int>,
) -> Seq<TaskView> {
    calculate_parent_dates_spec(after_forward(tasks, calendar, today), calendar)
}

/// The task list after the backward pass of a run.
pub open spec fn after_backward(
    tasks: Seq<TaskView>,
    calendar: CalendarView,
    today: Option<int>,
) -> Seq<TaskView> {
    backward_pass_spec(after_rollup(tasks, calendar, today), calendar, successor_map_of(tasks))
}

/// The task list after float calculation in a run.
pub open spec fn after_float(
    tasks: Seq<TaskView>,
    calendar: CalendarView,
    today: Option<int>,
) -> Seq<TaskView> {
    calculate_float_spec(after_backward(tasks, calendar, today), calendar, successor_map_of(tasks))
}

/// The projection that blanks dates and duration.
pub open spec fn keep_but_dates() -> Keep {
    |task: TaskView| without_dates(task)
}

/// The projection that blanks float.
pub open spec fn keep_but_float() -> Keep {
    |task: TaskView| without_float(task)
}

/// The projection that blanks the critical mark.
pub open spec fn keep_but_mark() -> Keep {
    |task: TaskView| without_mark(task)
}

/// The parent rollup keeps the hierarchy, changes nothing but dates and
/// duration, and leaves tasks without children alone.
pub proof fn lemma_rollup_frame(tasks: Seq<TaskView>, calendar: CalendarView)
    ensures
        same_hierarchy(tasks, calculate_parent_dates_spec(tasks, calendar)),
        forall|i: int|
            0 <= i < tasks.len() ==> without_dates(
                #[trigger] calculate_parent_dates_spec(tasks, calendar)[i],
            ) == without_dates(tasks[i]),
        forall|i: int|
            0 <= i < tasks.len() && !parent_flags_of(tasks)[i]
                ==> #[trigger] calculate_parent_dates_spec(tasks, calendar)[i] == tasks[i],
{
    let roll = date_roll(calendar);
    let keep = keep_but_dates();
    let parents = parent_flags_of(tasks);
    let depths = depths_of(tasks);
    let deepest = deepest_of(tasks) as int;
    lemma_date_roll(calendar);
    lemma_level_rounds_hierarchy(tasks, parents, depths, deepest, roll);
    assert(roll_keeps(roll, keep)) by {
        assert forall|a: Seq<TaskView>, i: int| 0 <= i < a.len() implies keep(
            #[trigger] roll(a, i),
        ) == keep(a[i]) by {}
    }
    assert forall|i: int| 0 <= i < tasks.len() implies without_dates(
        #[trigger] calculate_parent_dates_spec(tasks, calendar)[i],
    ) == without_dates(tasks[i]) by {
        lemma_level_rounds_keep(tasks, parents, depths, deepest, roll, keep, i);
    }
    assert forall|i: int|
        0 <= i < tasks.len() && !parent_flags_of(
            tasks,
        )[i] implies #[trigger] calculate_parent_dates_spec(tasks, calendar)[i] == tasks[i] by {
        lemma_level_rounds_leaves(tasks, parents, depths, deepest, roll, i);
    }
}

/// The backward pass keeps the hierarchy, changes nothing but late dates,
/// and leaves tasks with children alone.
pub proof fn lemma_backward_frame(
    tasks: Seq<TaskView>,
    calendar: CalendarView,
    successors: Seq<Seq<SuccessorEntryView>>,
)
    ensures
        same_hierarchy(tasks, backward_pass_spec(tasks, calendar, successors)),
        forall|i: int|
            0 <= i < tasks.len() ==> without_late_dates(
                #[trigger] backward_pass_spec(tasks, calendar, successors)[i],
            ) == without_late_dates(tasks[i]),
        forall|i: int|
            0 <= i < tasks.len() && parent_flags_of(tasks)[i] ==> #[trigger] backward_pass_spec(
                tasks,
                calendar,
                successors,
            )[i] == tasks[i],
{
    match project_finish(tasks) {
        Some(finish) => {
            lemma_backward_rounds_frame(
                tasks,
                calendar,
                parent_flags_of(tasks),
                successors,
                finish,
                MAX_CPM_ITERATIONS as nat,
            );
            let after = backward_pass_spec(tasks, calendar, successors);
            assert forall|j: int| 0 <= j < tasks.len() implies (#[trigger] tasks[j]).id
                == after[j].id && tasks[j].parent_id == after[j].parent_id by {}
        },
        None => {},
    }
}

/// Float calculation keeps the hierarchy and changes nothing but float; a
/// task without children gets the float its dates and links give it.
pub proof fn lemma_float_frame(
    tasks: Seq<TaskView>,
    calendar: CalendarView,
    successors: Seq<Seq<SuccessorEntryView>>,
)
    ensures
        same_hierarchy(tasks, calculate_float_spec(tasks, calendar, successors)),
        same_hierarchy(tasks, float_leaves(tasks, calendar, successors)),
        forall|i: int|
            0 <= i < tasks.len() ==> without_float(
                #[trigger] calculate_float_spec(tasks, calendar, successors)[i],
            ) == without_float(tasks[i]),
        forall|i: int|
            0 <= i < tasks.len() && !parent_flags_of(tasks)[i] ==> #[trigger] calculate_float_spec(
                tasks,
                calendar,
                successors,
            )[i] == float_leaves(tasks, calendar, successors)[i],
{
    let leaves = float_leaves(tasks, calendar, successors);
    let roll = float_roll();
    let keep = keep_but_float();
    assert(same_hierarchy(tasks, leaves)) by {
        assert forall|j: int| 0 <= j < tasks.len() implies (#[trigger] tasks[j]).id == leaves[j].id
            && tasks[j].parent_id == leaves[j].parent_id by {}
    }
    lemma_same_hierarchy(tasks, leaves);
    let parents = parent_flags_of(leaves);
    let depths = depths_of(leaves);
    let deepest = deepest_of(leaves) as int;
    lemma_float_roll();
    lemma_level_rounds_hierarchy(leaves, parents, depths, deepest, roll);
    let after = calculate_float_spec(tasks, calendar, successors);
    assert forall|j: int| 0 <= j < tasks.len() implies (#[trigger] tasks[j]).id == after[j].id
        && tasks[j].parent_id == after[j].parent_id by {}
    assert(roll_keeps(roll, keep)) by {
        assert forall|a: Seq<TaskView>, i: int| 0 <= i < a.len() implies keep(
            #[trigger] roll(a, i),
        ) == keep(a[i]) by {}
    }
    assert forall|i: int| 0 <= i < tasks.len() implies without_float(#[trigger] after[i])
        == without_float(tasks[i]) by {
        lemma_level_rounds_keep(leaves, parents, depths, deepest, roll, keep, i);
    }
    assert forall|i: int| 0 <= i < tasks.len() && !parent_flags_of(tasks)[i] implies (
    #[trigger] after[i]) == leaves[i] by {
        lemma_level_rounds_leaves(leaves, parents, depths, deepest, roll, i);
    }
}

/// Marking keeps the hierarchy and changes nothing but the critical mark; a
/// task without children is marked by its float.
pub proof fn lemma_mark_frame(tasks: Seq<TaskView>)
    ensures
        same_hierarchy(tasks, mark_critical_path_spec(tasks)),
        same_hierarchy(tasks, mark_leaves(tasks)),
        forall|i: int|
            0 <= i < tasks.len() ==> without_mark(#[trigger] mark_critical_path_spec(tasks)[i])
                == without_mark(tasks[i]),
        forall|i: int|
            0 <= i < tasks.len() && !parent_flags_of(tasks)[i]
                ==> #[trigger] mark_critical_path_spec(tasks)[i] == mark_leaves(tasks)[i],
{
    let leaves = mark_leaves(tasks);
    let roll = critical_roll();
    let keep = keep_but_mark();
    assert(same_hierarchy(tasks, leaves)) by {
        assert forall|j: int| 0 <= j < tasks.len() implies (#[trigger] tasks[j]).id == leaves[j].id
            && tasks[j].parent_id == leaves[j].parent_id by {}
    }
    lemma_same_hierarchy(tasks, leaves);
    let parents = parent_flags_of(leaves);
    let depths = depths_of(leaves);
    let deepest = deepest_of(leaves) as int;
    lemma_critical_roll();
    lemma_level_rounds_hierarchy(leaves, parents, depths, deepest, roll);
    let after = mark_critical_path_spec(tasks);
    assert forall|j: int| 0 <= j < tasks.len() implies (#[trigger] tasks[j]).id == after[j].id
        && tasks[j].parent_id == after[j].parent_id by {}
    assert(roll_keeps(roll, keep)) by {
        assert forall|a: Seq<TaskView>, i: int| 0 <= i < a.len() implies keep(
            #[trigger] roll(a, i),
        ) == keep(a[i]) by {}
    }
    assert forall|i: int| 0 <= i < tasks.len() implies without_mark(#[trigger] after[i])
        == without_mark(tasks[i]) by {
        lemma_level_rounds_keep(leaves, parents, depths, deepest, roll, keep, i);
    }
    assert forall|i: int| 0 <= i < tasks.len() && !parent_flags_of(tasks)[i] implies (
    #[trigger] after[i]) == leaves[i] by {
        lemma_level_rounds_leaves(leaves, parents, depths, deepest, roll, i);
    }
}

/// What each pass of a run leaves alone at position `i`.
///
/// Every stage has the hierarchy of the input. The forward pass writes
/// start and finish, the rollup dates and duration of tasks with children,
/// the backward pass late dates, float calculation float, and marking the
/// critical mark; none touches what an earlier pass wrote, save the rollup
/// the dates of tasks with children.
pub proof fn lemma_run_frames(
    tasks: Seq<TaskView>,
    calendar: CalendarView,
    today: Option<int>,
    i: int,
)
    requires
        0 <= i < tasks.len(),
    ensures
        same_hierarchy(tasks, after_forward(tasks, calendar, today)),
        same_hierarchy(tasks, after_rollup(tasks, calendar, today)),
        same_hierarchy(tasks, after_backward(tasks, calendar, today)),
        same_hierarchy(tasks, after_float(tasks, calendar, today)),
        same_hierarchy(tasks, scheduled(tasks, calendar, today)),
        without_dates(after_forward(tasks, calendar, today)[i]) == without_dates(tasks[i]),
        after_forward(tasks, calendar, today)[i].duration == tasks[i].duration,
        without_dates(after_rollup(tasks, calendar, today)[i]) == without_dates(tasks[i]),
        !parent_flags_of(tasks)[i] ==> after_rollup(tasks, calendar, today)[i] == after_forward(
            tasks,
            calendar,
            today,
        )[i],
        without_late_dates(after_backward(tasks, calendar, today)[i]) == without_late_dates(
            after_rollup(tasks, calendar, today)[i],
        ),
        without_float(after_float(tasks, calendar, today)[i]) == without_float(
            after_backward(tasks, calendar, today)[i],
        ),
        without_mark(scheduled(tasks, calendar, today)[i]) == without_mark(
            after_float(tasks, calendar, today)[i],
        ),
{
    let forward = after_forward(tasks, calendar, today);
    let rolled = after_rollup(tasks, calendar, today);
    let backward = after_backward(tasks, calendar, today);
    let floated = after_float(tasks, calendar, today);
    let done = scheduled(tasks, calendar, today);
    lemma_forward_rounds_frame(tasks, calendar, today, MAX_CPM_ITERATIONS as nat);
    lemma_same_hierarchy(tasks, forward);
    lemma_rollup_frame(forward, calendar);
    lemma_backward_frame(rolled, calendar, successor_map_of(tasks));
    lemma_float_frame(backward, calendar, successor_map_of(tasks));
    lemma_mark_frame(floated);
    assert forall|j: int| 0 <= j < tasks.len() implies (#[trigger] tasks[j]).id == rolled[j].id
        && tasks[j].parent_id == rolled[j].parent_id by {}
    assert forall|j: int| 0 <= j < tasks.len() implies (#[trigger] tasks[j]).id == backward[j].id
        && tasks[j].parent_id == backward[j].parent_id by {}
    assert forall|j: int| 0 <= j < tasks.len() implies (#[trigger] tasks[j]).id == floated[j].id
        && tasks[j].parent_id == floated[j].parent_id by {}
    assert forall|j: int| 0 <= j < tasks.len() implies (#[trigger] tasks[j]).id == done[j].id
        && tasks[j].parent_id == done[j].parent_id by {}
}

/// After the forward pass, a task without children is what one round makes
/// of it from a list with the same hierarchy, constraints and durations.
pub proof fn lemma_forward_leaf_result(
    tasks: Seq<TaskView>,
    calendar: CalendarView,
    today: Option<int>,
    i: int,
)
    requires
        0 <= i < tasks.len(),
        !parent_flags_of(tasks)[i],
    ensures
        ({
            let input = forward_last_input(tasks, calendar, today, MAX_CPM_ITERATIONS as nat);
            &&& input.len() == tasks.len()
            &&& without_dates(input[i]) == without_dates(tasks[i])
            &&& input[i].duration == tasks[i].duration
            &&& after_forward(tasks, calendar, today)[i] == forward_leaf(input, calendar, today, i)
        }),
{
    let input = forward_last_input(tasks, calendar, today, MAX_CPM_ITERATIONS as nat);
    lemma_forward_rounds_frame(tasks, calendar, today, MAX_CPM_ITERATIONS as nat);
    lemma_same_hierarchy(tasks, input);
}

/// The project's finish is the same after the rollup as at the end of the
/// run.
pub proof fn lemma_project_finish_kept(
    tasks: Seq<TaskView>,
    calendar: CalendarView,
    today: Option<int>,
)
    ensures
        project_finish(scheduled(tasks, calendar, today)) == project_finish(
            after_rollup(tasks, calendar, today),
        ),
{
    let rolled = after_rollup(tasks, calendar, today);
    let done = scheduled(tasks, calendar, today);
    lemma_run_inputs(tasks, calendar, today);
    let forward = after_forward(tasks, calendar, today);
    lemma_forward_rounds_frame(tasks, calendar, today, MAX_CPM_ITERATIONS as nat);
    lemma_rollup_frame(forward, calendar);
    assert(same_hierarchy(rolled, done)) by {
        assert forall|j: int| 0 <= j < rolled.len() implies (#[trigger] rolled[j]).id
            == done[j].id && rolled[j].parent_id == done[j].parent_id by {}
    }
    lemma_same_hierarchy(rolled, done);
    assert forall|j: int| 0 <= j < rolled.len() implies (#[trigger] rolled[j]).end
        == done[j].end by {
        lemma_late_passes_keep(tasks, calendar, today, j);
    }
    lemma_project_finish_same(
        rolled,
        done,
        parent_flags_of(done),
        done.len() as int,
    );
}

/// After the backward pass of a run in which some task without children has
/// a finish, a task without children is what one round makes of it from a
/// list that differs from the list after the rollup in late dates only.
pub proof fn lemma_backward_leaf_result(
    tasks: Seq<TaskView>,
    calendar: CalendarView,
    today: Option<int>,
    i: int,
)
    requires
        0 <= i < tasks.len(),
        !parent_flags_of(tasks)[i],
        project_finish(after_rollup(tasks, calendar, today)) is Some,
    ensures
        ({
            let rolled = after_rollup(tasks, calendar, today);
            let finish = project_finish(rolled)->0;
            let input = backward_last_input(
                rolled,
                calendar,
                parent_flags_of(rolled),
                successor_map_of(tasks),
                finish,
                MAX_CPM_ITERATIONS as nat,
            );
            &&& input.len() == tasks.len()
            &&& without_late_dates(input[i]) == without_late_dates(rolled[i])
            &&& after_backward(tasks, calendar, today)[i] == backward_leaf(
                input,
                calendar,
                parent_flags_of(rolled),
                links_at(successor_map_of(tasks), i),
                finish,
                i,
            )
        }),
{
    let rolled = after_rollup(tasks, calendar, today);
    let finish = project_finish(rolled)->0;
    lemma_run_frames(tasks, calendar, today, i);
    lemma_same_hierarchy(tasks, rolled);
    lemma_backward_rounds_frame(
        rolled,
        calendar,
        parent_flags_of(rolled),
        successor_map_of(tasks),
        finish,
        MAX_CPM_ITERATIONS as nat,
    );
}

/// Every pass after the rollup leaves dates and duration of every task
/// alone, and every pass after float calculation its float.
pub proof fn lemma_late_passes_keep(
    tasks: Seq<TaskView>,
    calendar: CalendarView,
    today: Option<int>,
    j: int,
)
    requires
        0 <= j < tasks.len(),
    ensures
        ({
            let rolled = after_rollup(tasks, calendar, today)[j];
            let floated = after_float(tasks, calendar, today)[j];
            let done = scheduled(tasks, calendar, today)[j];
            &&& done.id == rolled.id
            &&& done.parent_id == rolled.parent_id
            &&& done.start == rolled.start
            &&& done.end == rolled.end
            &&& done.duration == rolled.duration
            &&& done.total_float_days == floated.total_float_days
            &&& done.free_float_days == floated.free_float_days
            &&& done.late_start == floated.late_start
            &&& done.late_finish == floated.late_finish
            &&& done.start == floated.start
            &&& done.end == floated.end
            &&& done.id == floated.id
            &&& done.parent_id == floated.parent_id
        }),
{
    lemma_run_frames(tasks, calendar, today, j);
}

/// A run keeps the length of the list, and identifier, parent and
/// dependencies of every task.
pub proof fn lemma_run_inputs(tasks: Seq<TaskView>, calendar: CalendarView, today: Option<int>)
    ensures
        same_hierarchy(tasks, scheduled(tasks, calendar, today)),
        same_hierarchy(tasks, after_backward(tasks, calendar, today)),
        same_hierarchy(tasks, after_float(tasks, calendar, today)),
        forall|j: int|
            0 <= j < tasks.len() ==> (#[trigger] scheduled(tasks, calendar, today)[j]).dependencies
                == tasks[j].dependencies,
{
    let forward = after_forward(tasks, calendar, today);
    let rolled = after_rollup(tasks, calendar, today);
    let backward = after_backward(tasks, calendar, today);
    let floated = after_float(tasks, calendar, today);
    let done = scheduled(tasks, calendar, today);
    lemma_forward_rounds_frame(tasks, calendar, today, MAX_CPM_ITERATIONS as nat);
    lemma_rollup_frame(forward, calendar);
    lemma_backward_frame(rolled, calendar, successor_map_of(tasks));
    lemma_float_frame(backward, calendar, successor_map_of(tasks));
    lemma_mark_frame(floated);
    assert forall|j: int| 0 <= j < tasks.len() implies (#[trigger] tasks[j]).id == backward[j].id
        && tasks[j].parent_id == backward[j].parent_id by {}
    assert forall|j: int| 0 <= j < tasks.len() implies (#[trigger] tasks[j]).id == floated[j].id
        && tasks[j].parent_id == floated[j].parent_id by {}
    assert forall|j: int| 0 <= j < tasks.len() implies (#[trigger] tasks[j]).id == done[j].id
        && tasks[j].parent_id == done[j].parent_id by {}
    assert forall|j: int| 0 <= j < tasks.len() implies (#[trigger] done[j]).dependencies
        == tasks[j].dependencies by {}
}

} // verus!
