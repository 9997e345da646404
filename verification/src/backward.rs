//! The backward pass: latest finish and start of every task without
//! children, relaxed to a fixed point from the project's finish.

use vstd::prelude::*;

use crate::date_utils::{
    earlier_date, earlier_of, later_date, later_of, same_date, shift_or_keep, shifted_day, Date,
};
use crate::forward::MAX_CPM_ITERATIONS;
use crate::graph::{
    constraint_kind, constraint_kind_of, duration_offset, find_task, find_task_index,
    get_duration_offset, link_kind, link_kind_of, parent_flags, parent_flags_of,
    successor_map_views, successor_views, ConstraintKind, LinkKind, SuccessorEntry,
    SuccessorEntryView,
};
use crate::types::{
    day_of, task_views, without_late_dates, Calendar, CalendarView, Task, TaskView,
};

verus! {

/// The latest finish among the first `upto` tasks that have no children.
pub open spec fn project_finish_upto(tasks: Seq<TaskView>, parents: Seq<bool>, upto: int) -> Option<
    int,
>
    decreases upto,
{
    if upto <= 0 {
        None
    } else if !parents[upto - 1] {
        later_of(project_finish_upto(tasks, parents, upto - 1), tasks[upto - 1].end)
    } else {
        project_finish_upto(tasks, parents, upto - 1)
    }
}

/// The project's finish: the latest finish among the tasks without children.
pub open spec fn project_finish(tasks: Seq<TaskView>) -> Option<int> {
    project_finish_upto(tasks, parent_flags_of(tasks), tasks.len() as int)
}

/// The links to the task at position `i`; none where the index has no entry
/// for it.
pub open spec fn links_at(successors: Seq<Seq<SuccessorEntryView>>, i: int) -> Seq<
    SuccessorEntryView,
> {
    if 0 <= i < successors.len() {
        successors[i]
    } else {
        Seq::empty()
    }
}

/// The latest finish that one link to a successor allows `task`, or `None`
/// where the successor is not in the list, has children or has no start.
///
/// With `ls` the successor's late start, or its start while it has none, and
/// `lag` the link's lag, the finish lies `1 + lag` working days before `ls`
/// for a finish-to-start link, `lag` before it for start-to-finish, and the
/// task's own duration offset less `lag` after it for start-to-start, the
/// successor's duration offset less `lag` after it for finish-to-finish.
pub open spec fn successor_finish(
    tasks: Seq<TaskView>,
    calendar: CalendarView,
    parents: Seq<bool>,
    task: TaskView,
    link: SuccessorEntryView,
) -> Option<int> {
    match find_task(tasks, link.id) {
        Some(s) => if tasks[s].start is None || parents[s] {
            None
        } else {
            let late_start = if tasks[s].late_start is Some {
                tasks[s].late_start->0
            } else {
                tasks[s].start->0
            };
            Some(
                match link_kind_of(link.link_type) {
                    LinkKind::FinishToStart => shifted_day(calendar, late_start, -1 - link.lag),
                    LinkKind::StartToStart => shifted_day(
                        calendar,
                        late_start,
                        duration_offset(task.duration) - link.lag,
                    ),
                    LinkKind::FinishToFinish => shifted_day(
                        calendar,
                        late_start,
                        duration_offset(tasks[s].duration) - link.lag,
                    ),
                    LinkKind::StartToFinish => shifted_day(calendar, late_start, -link.lag),
                },
            )
        },
        None => None,
    }
}

/// The earliest of the finishes that the first `upto` links allow `task`.
pub open spec fn successors_finish(
    tasks: Seq<TaskView>,
    calendar: CalendarView,
    parents: Seq<bool>,
    task: TaskView,
    links: Seq<SuccessorEntryView>,
    upto: int,
) -> Option<int>
    decreases upto,
{
    if upto <= 0 {
        None
    } else {
        earlier_of(
            successors_finish(tasks, calendar, parents, task, links, upto - 1),
            successor_finish(tasks, calendar, parents, task, links[upto - 1]),
        )
    }
}

/// The latest finish that the links to the task at position `i` give it:
/// the project's finish for a task that nothing follows, else the earliest
/// finish its successors allow.
pub open spec fn finish_from_links(
    tasks: Seq<TaskView>,
    calendar: CalendarView,
    parents: Seq<bool>,
    links: Seq<SuccessorEntryView>,
    finish: int,
    i: int,
) -> Option<int> {
    if links.len() == 0 {
        Some(finish)
    } else {
        successors_finish(tasks, calendar, parents, tasks[i], links, links.len() as int)
    }
}

/// The late finish of the task at position `i` before its own constraint is
/// applied: what its links give it, else the late finish it has.
pub open spec fn unconstrained_finish(
    tasks: Seq<TaskView>,
    calendar: CalendarView,
    parents: Seq<bool>,
    links: Seq<SuccessorEntryView>,
    finish: int,
    i: int,
) -> Option<int> {
    let given = finish_from_links(tasks, calendar, parents, links, finish, i);
    if given is Some {
        given
    } else {
        tasks[i].late_finish
    }
}

/// Whether the finish-no-later constraint of `task` pulls `late_finish` in.
pub open spec fn finish_is_capped(task: TaskView, late_finish: Option<int>) -> bool {
    constraint_kind_of(task.constraint_type) == ConstraintKind::Fnlt && task.constraint_date is Some
        && (late_finish is None || task.constraint_date->0 < late_finish->0)
}

/// The task at position `i` after one round of the backward pass over it:
/// its late finish is what its links give it, capped by a finish-no-later
/// constraint, and its late start lies its duration offset before.
pub open spec fn backward_leaf(
    tasks: Seq<TaskView>,
    calendar: CalendarView,
    parents: Seq<bool>,
    links: Seq<SuccessorEntryView>,
    finish: int,
    i: int,
) -> TaskView {
    let task = tasks[i];
    let open_finish = unconstrained_finish(tasks, calendar, parents, links, finish, i);
    let late_finish = if finish_is_capped(task, open_finish) {
        task.constraint_date
    } else {
        open_finish
    };
    TaskView {
        late_finish,
        late_start: match late_finish {
            Some(day) => Some(shifted_day(calendar, day, -duration_offset(task.duration))),
            None => task.late_start,
        },
        ..task
    }
}

/// Whether a round of the backward pass counts the task at position `i` as
/// changed: its links gave it another late finish than it had, its
/// constraint pulled the late finish in, or its late start moved.
pub open spec fn backward_leaf_changed(
    tasks: Seq<TaskView>,
    calendar: CalendarView,
    parents: Seq<bool>,
    links: Seq<SuccessorEntryView>,
    finish: int,
    i: int,
) -> bool {
    let task = tasks[i];
    let given = finish_from_links(tasks, calendar, parents, links, finish, i);
    let open_finish = unconstrained_finish(tasks, calendar, parents, links, finish, i);
    let after = backward_leaf(tasks, calendar, parents, links, finish, i);
    (given is Some && given != task.late_finish) || finish_is_capped(task, open_finish) || (
    after.late_finish is Some && after.late_start != task.late_start)
}

/// The task at position `i` after one round: tasks with children are left
/// alone.
pub open spec fn backward_task(
    tasks: Seq<TaskView>,
    calendar: CalendarView,
    parents: Seq<bool>,
    successors: Seq<Seq<SuccessorEntryView>>,
    finish: int,
    i: int,
) -> TaskView {
    if parents[i] {
        tasks[i]
    } else {
        backward_leaf(tasks, calendar, parents, links_at(successors, i), finish, i)
    }
}

/// The task list after one round of the backward pass.
pub open spec fn backward_step(
    tasks: Seq<TaskView>,
    calendar: CalendarView,
    parents: Seq<bool>,
    successors: Seq<Seq<SuccessorEntryView>>,
    finish: int,
) -> Seq<TaskView> {
    Seq::new(
        tasks.len(),
        |i: int| backward_task(tasks, calendar, parents, successors, finish, i),
    )
}

/// Whether a round counts one of the first `upto` tasks as changed.
pub open spec fn backward_changed_upto(
    tasks: Seq<TaskView>,
    calendar: CalendarView,
    parents: Seq<bool>,
    successors: Seq<Seq<SuccessorEntryView>>,
    finish: int,
    upto: int,
) -> bool
    decreases upto,
{
    if upto <= 0 {
        false
    } else {
        backward_changed_upto(tasks, calendar, parents, successors, finish, upto - 1) || (
        !parents[upto - 1] && backward_leaf_changed(
            tasks,
            calendar,
            parents,
            links_at(successors, upto - 1),
            finish,
            upto - 1,
        ))
    }
}

/// The task list after the backward pass has made rounds until one changes
/// nothing, and at most `rounds` of them.
pub open spec fn backward_rounds(
    tasks: Seq<TaskView>,
    calendar: CalendarView,
    parents: Seq<bool>,
    successors: Seq<Seq<SuccessorEntryView>>,
    finish: int,
    rounds: nat,
) -> Seq<TaskView>
    decreases rounds,
{
    if rounds == 0 {
        tasks
    } else if backward_changed_upto(
        tasks,
        calendar,
        parents,
        successors,
        finish,
        tasks.len() as int,
    ) {
        backward_rounds(
            backward_step(tasks, calendar, parents, successors, finish),
            calendar,
            parents,
            successors,
            finish,
            (rounds - 1) as nat,
        )
    } else {
        backward_step(tasks, calendar, parents, successors, finish)
    }
}

/// The number of rounds the backward pass makes when allowed `rounds`.
pub open spec fn backward_rounds_made(
    tasks: Seq<TaskView>,
    calendar: CalendarView,
    parents: Seq<bool>,
    successors: Seq<Seq<SuccessorEntryView>>,
    finish: int,
    rounds: nat,
) -> nat
    decreases rounds,
{
    if rounds == 0 {
        0
    } else if backward_changed_upto(
        tasks,
        calendar,
        parents,
        successors,
        finish,
        tasks.len() as int,
    ) {
        1 + backward_rounds_made(
            backward_step(tasks, calendar, parents, successors, finish),
            calendar,
            parents,
            successors,
            finish,
            (rounds - 1) as nat,
        )
    } else {
        1
    }
}

/// The task list after the backward pass: unchanged where no task without
/// children has a finish, else relaxed from the project's finish.
pub open spec fn backward_pass_spec(
    tasks: Seq<TaskView>,
    calendar: CalendarView,
    successors: Seq<Seq<SuccessorEntryView>>,
) -> Seq<TaskView> {
    match project_finish(tasks) {
        Some(finish) => backward_rounds(
            tasks,
            calendar,
            parent_flags_of(tasks),
            successors,
            finish,
            MAX_CPM_ITERATIONS as nat,
        ),
        None => tasks,
    }
}

/// Whether the backward pass reaches its round limit.
pub open spec fn backward_limit_reached(
    tasks: Seq<TaskView>,
    calendar: CalendarView,
    successors: Seq<Seq<SuccessorEntryView>>,
) -> bool {
    match project_finish(tasks) {
        Some(finish) => backward_rounds_made(
            tasks,
            calendar,
            parent_flags_of(tasks),
            successors,
            finish,
            MAX_CPM_ITERATIONS as nat,
        ) == MAX_CPM_ITERATIONS,
        None => false,
    }
}

/// Finds the latest finish among the tasks without children.
pub fn find_project_finish(tasks: &[Task], parents: &Vec<bool>) -> (r: Option<Date>)
    requires
        parents.len() == tasks.len(),
    ensures
        day_of(r) == project_finish_upto(task_views(tasks@), parents@, tasks.len() as int),
{
    let mut latest: Option<Date> = None;
    let mut i: usize = 0;
    while i < tasks.len()
        invariant
            i <= tasks.len(),
            parents.len() == tasks.len(),
            day_of(latest) == project_finish_upto(task_views(tasks@), parents@, i as int),
        decreases tasks.len() - i,
    {
        if !parents[i] {
            latest = later_date(latest, tasks[i].end);
        }
        i += 1;
    }
    latest
}

/// The earliest finish that the links allow the task at `i`.
fn earliest_successor_finish(
    tasks: &[Task],
    i: usize,
    parents: &Vec<bool>,
    links: &Vec<SuccessorEntry>,
    calendar: &Calendar,
) -> (r: Option<Date>)
    requires
        i < tasks.len(),
        parents.len() == tasks.len(),
    ensures
        day_of(r) == successors_finish(
            task_views(tasks@),
            calendar@,
            parents@,
            task_views(tasks@)[i as int],
            successor_views(links@),
            links.len() as int,
        ),
{
    let ghost views = task_views(tasks@);
    let ghost task = views[i as int];
    let own_offset = get_duration_offset(tasks[i].duration) as i64;
    let mut earliest: Option<Date> = None;
    let mut k: usize = 0;
    while k < links.len()
        invariant
            i < tasks.len(),
            parents.len() == tasks.len(),
            views == task_views(tasks@),
            task == views[i as int],
            own_offset == duration_offset(task.duration),
            k <= links.len(),
            day_of(earliest) == successors_finish(
                views,
                calendar@,
                parents@,
                task,
                successor_views(links@),
                k as int,
            ),
        decreases links.len() - k,
    {
        let link = &links[k];
        let lag = link.lag as i64;
        let allowed: Option<Date> = match find_task_index(tasks, &link.id) {
            Some(s) => {
                let late_start = match (tasks[s].late_start, tasks[s].start) {
                    (_, None) => None,
                    (Some(late), Some(_)) => Some(late),
                    (None, Some(start)) => Some(start),
                };
                match late_start {
                    Some(from) => if parents[s] {
                        None
                    } else {
                        Some(
                            match link_kind(&link.link_type) {
                                LinkKind::FinishToStart => shift_or_keep(from, -1 - lag, calendar),
                                LinkKind::StartToStart => shift_or_keep(
                                    from,
                                    own_offset - lag,
                                    calendar,
                                ),
                                LinkKind::FinishToFinish => shift_or_keep(
                                    from,
                                    get_duration_offset(tasks[s].duration) as i64 - lag,
                                    calendar,
                                ),
                                LinkKind::StartToFinish => shift_or_keep(from, -lag, calendar),
                            },
                        )
                    },
                    None => None,
                }
            },
            None => None,
        };
        earliest = earlier_date(earliest, allowed);
        k += 1;
    }
    earliest
}

/// The late finish and late start that one round gives the childless task
/// at `i`.
fn schedule_leaf_backward(
    tasks: &[Task],
    i: usize,
    parents: &Vec<bool>,
    links: &Vec<SuccessorEntry>,
    finish: Date,
    calendar: &Calendar,
) -> (r: (Option<Date>, Option<Date>, bool))
    requires
        i < tasks.len(),
        parents.len() == tasks.len(),
    ensures
        ({
            let after = backward_leaf(
                task_views(tasks@),
                calendar@,
                parents@,
                successor_views(links@),
                finish.day as int,
                i as int,
            );
            &&& day_of(r.0) == after.late_finish
            &&& day_of(r.1) == after.late_start
        }),
        r.2 == backward_leaf_changed(
            task_views(tasks@),
            calendar@,
            parents@,
            successor_views(links@),
            finish.day as int,
            i as int,
        ),
{
    let task = &tasks[i];
    let given = if links.len() == 0 {
        Some(finish)
    } else {
        earliest_successor_finish(tasks, i, parents, links, calendar)
    };
    let mut changed = given.is_some() && !same_date(given, task.late_finish);
    let open_finish = if given.is_some() {
        given
    } else {
        task.late_finish
    };
    let mut late_finish = open_finish;
    if let ConstraintKind::Fnlt = constraint_kind(&task.constraint_type) {
        if let Some(date) = task.constraint_date {
            let capped = match open_finish {
                Some(present) => date.day < present.day,
                None => true,
            };
            if capped {
                late_finish = Some(date);
                changed = true;
            }
        }
    }
    let late_start = match late_finish {
        Some(day) => {
            let offset = get_duration_offset(task.duration) as i64;
            let moved = Some(shift_or_keep(day, -offset, calendar));
            if !same_date(moved, task.late_start) {
                changed = true;
            }
            moved
        },
        None => task.late_start,
    };
    (late_finish, late_start, changed)
}

/// One round of the backward pass.
fn backward_round(
    tasks: &mut [Task],
    calendar: &Calendar,
    parents: &Vec<bool>,
    successor_map: &Vec<Vec<SuccessorEntry>>,
    finish: Date,
) -> (changed: bool)
    requires
        parents.len() == old(tasks).len(),
    ensures
        final(tasks).len() == old(tasks).len(),
        task_views(final(tasks)@) == backward_step(
            task_views(old(tasks)@),
            calendar@,
            parents@,
            successor_map_views(successor_map@),
            finish.day as int,
        ),
        changed == backward_changed_upto(
            task_views(old(tasks)@),
            calendar@,
            parents@,
            successor_map_views(successor_map@),
            finish.day as int,
            old(tasks).len() as int,
        ),
{
    let ghost before = task_views(tasks@);
    let ghost successors = successor_map_views(successor_map@);
    let count = tasks.len();
    let no_links: Vec<SuccessorEntry> = Vec::new();
    let mut dates: Vec<(Option<Date>, Option<Date>)> = Vec::new();
    let mut changed = false;
    let mut i: usize = 0;
    while i < count
        invariant
            i <= count,
            count == tasks.len(),
            parents.len() == count,
            before == task_views(tasks@),
            successors == successor_map_views(successor_map@),
            successor_views(no_links@) == Seq::<SuccessorEntryView>::empty(),
            dates.len() == i,
            forall|j: int|
                0 <= j < i ==> {
                    let after = backward_task(
                        before,
                        calendar@,
                        parents@,
                        successors,
                        finish.day as int,
                        j,
                    );
                    &&& day_of((#[trigger] dates@[j]).0) == after.late_finish
                    &&& day_of(dates@[j].1) == after.late_start
                },
            changed == backward_changed_upto(
                before,
                calendar@,
                parents@,
                successors,
                finish.day as int,
                i as int,
            ),
        decreases count - i,
    {
        if parents[i] {
            dates.push((tasks[i].late_finish, tasks[i].late_start));
        } else {
            let links = if i < successor_map.len() {
                &successor_map[i]
            } else {
                &no_links
            };
            let (late_finish, late_start, moved) = schedule_leaf_backward(
                tasks,
                i,
                parents,
                links,
                finish,
                calendar,
            );
            dates.push((late_finish, late_start));
            changed = changed || moved;
        }
        i += 1;
    }
    let mut j: usize = 0;
    while j < count
        invariant
            j <= count,
            count == tasks.len(),
            before.len() == count,
            dates.len() == count,
            forall|k: int|
                0 <= k < count ==> {
                    let after = backward_task(
                        before,
                        calendar@,
                        parents@,
                        successors,
                        finish.day as int,
                        k,
                    );
                    &&& day_of((#[trigger] dates@[k]).0) == after.late_finish
                    &&& day_of(dates@[k].1) == after.late_start
                },
            forall|k: int|
                0 <= k < j ==> (#[trigger] tasks@[k])@ == backward_task(
                    before,
                    calendar@,
                    parents@,
                    successors,
                    finish.day as int,
                    k,
                ),
            forall|k: int| j <= k < count ==> (#[trigger] tasks@[k])@ == before[k],
        decreases count - j,
    {
        let (late_finish, late_start) = dates[j];
        tasks[j].late_finish = late_finish;
        tasks[j].late_start = late_start;
        j += 1;
    }
    changed
}

/// Runs the backward pass over the successor index given. Returns whether
/// the round limit was reached.
pub fn backward_pass(
    tasks: &mut [Task],
    calendar: &Calendar,
    successor_map: &Vec<Vec<SuccessorEntry>>,
) -> (limit: bool)
    ensures
        final(tasks).len() == old(tasks).len(),
        task_views(final(tasks)@) == backward_pass_spec(
            task_views(old(tasks)@),
            calendar@,
            successor_map_views(successor_map@),
        ),
        limit == backward_limit_reached(
            task_views(old(tasks)@),
            calendar@,
            successor_map_views(successor_map@),
        ),
{
    let ghost start = task_views(tasks@);
    let ghost successors = successor_map_views(successor_map@);
    let parents = parent_flags(tasks);
    let finish = match find_project_finish(tasks, &parents) {
        Some(date) => date,
        None => {
            return false;
        },
    };
    let mut iterations: usize = 0;
    let mut changed = true;
    while changed && iterations < MAX_CPM_ITERATIONS
        invariant
            iterations <= MAX_CPM_ITERATIONS,
            tasks.len() == old(tasks).len(),
            parents.len() == tasks.len(),
            start == task_views(old(tasks)@),
            successors == successor_map_views(successor_map@),
            parents@ == parent_flags_of(start),
            project_finish(start) == Some(finish.day as int),
            iterations == 0 ==> changed && task_views(tasks@) == start,
            changed ==> backward_pass_spec(start, calendar@, successors) == backward_rounds(
                task_views(tasks@),
                calendar@,
                parents@,
                successors,
                finish.day as int,
                (MAX_CPM_ITERATIONS - iterations) as nat,
            ),
            !changed ==> backward_pass_spec(start, calendar@, successors) == task_views(tasks@),
            changed ==> backward_rounds_made(
                start,
                calendar@,
                parents@,
                successors,
                finish.day as int,
                MAX_CPM_ITERATIONS as nat,
            ) == iterations + backward_rounds_made(
                task_views(tasks@),
                calendar@,
                parents@,
                successors,
                finish.day as int,
                (MAX_CPM_ITERATIONS - iterations) as nat,
            ),
            !changed ==> backward_rounds_made(
                start,
                calendar@,
                parents@,
                successors,
                finish.day as int,
                MAX_CPM_ITERATIONS as nat,
            ) == iterations,
        decreases MAX_CPM_ITERATIONS - iterations,
    {
        changed = backward_round(tasks, calendar, &parents, successor_map, finish);
        iterations += 1;
    }
    iterations >= MAX_CPM_ITERATIONS
}

/// The task list that the last of `rounds` rounds of the backward pass
/// starts from.
pub open spec fn backward_last_input(
    tasks: Seq<TaskView>,
    calendar: CalendarView,
    parents: Seq<bool>,
    successors: Seq<Seq<SuccessorEntryView>>,
    finish: int,
    rounds: nat,
) -> Seq<TaskView>
    decreases rounds,
{
    if rounds <= 1 || !backward_changed_upto(
        tasks,
        calendar,
        parents,
        successors,
        finish,
        tasks.len() as int,
    ) {
        tasks
    } else {
        backward_last_input(
            backward_step(tasks, calendar, parents, successors, finish),
            calendar,
            parents,
            successors,
            finish,
            (rounds - 1) as nat,
        )
    }
}

/// The rounds of the backward pass keep the length of the list, move
/// nothing but late dates, and leave tasks with children alone; their result
/// is what one round makes of the list the last round starts from, and that
/// list differs from the first in nothing but late dates.
pub proof fn lemma_backward_rounds_frame(
    tasks: Seq<TaskView>,
    calendar: CalendarView,
    parents: Seq<bool>,
    successors: Seq<Seq<SuccessorEntryView>>,
    finish: int,
    rounds: nat,
)
    ensures
        backward_rounds(tasks, calendar, parents, successors, finish, rounds).len() == tasks.len(),
        backward_last_input(tasks, calendar, parents, successors, finish, rounds).len()
            == tasks.len(),
        forall|i: int|
            0 <= i < tasks.len() ==> without_late_dates(
                #[trigger] backward_rounds(tasks, calendar, parents, successors, finish, rounds)[i],
            ) == without_late_dates(tasks[i]),
        forall|i: int|
            0 <= i < tasks.len() ==> without_late_dates(
                #[trigger] backward_last_input(
                    tasks,
                    calendar,
                    parents,
                    successors,
                    finish,
                    rounds,
                )[i],
            ) == without_late_dates(tasks[i]),
        forall|i: int|
            0 <= i < tasks.len() && parents[i] ==> #[trigger] backward_rounds(
                tasks,
                calendar,
                parents,
                successors,
                finish,
                rounds,
            )[i] == tasks[i],
        rounds >= 1 ==> backward_rounds(tasks, calendar, parents, successors, finish, rounds)
            == backward_step(
            backward_last_input(tasks, calendar, parents, successors, finish, rounds),
            calendar,
            parents,
            successors,
            finish,
        ),
    decreases rounds,
{
    let next = backward_step(tasks, calendar, parents, successors, finish);
    assert forall|i: int| 0 <= i < tasks.len() implies without_late_dates(#[trigger] next[i])
        == without_late_dates(tasks[i]) by {}
    if rounds > 0 && backward_changed_upto(
        tasks,
        calendar,
        parents,
        successors,
        finish,
        tasks.len() as int,
    ) {
        lemma_backward_rounds_frame(
            next,
            calendar,
            parents,
            successors,
            finish,
            (rounds - 1) as nat,
        );
        let last = backward_rounds(
            next,
            calendar,
            parents,
            successors,
            finish,
            (rounds - 1) as nat,
        );
        let input = backward_last_input(
            next,
            calendar,
            parents,
            successors,
            finish,
            (rounds - 1) as nat,
        );
        assert forall|i: int| 0 <= i < tasks.len() implies without_late_dates(#[trigger] last[i])
            == without_late_dates(tasks[i]) by {}
        assert forall|i: int| 0 <= i < tasks.len() implies without_late_dates(
            #[trigger] input[i],
        ) == without_late_dates(tasks[i]) by {}
        assert forall|i: int| 0 <= i < tasks.len() && parents[i] implies (#[trigger] last[i])
            == tasks[i] by {}
    }
}

/// The rounds of the backward pass leave alone a list that one round leaves
/// alone.
pub proof fn lemma_backward_rounds_identity(
    tasks: Seq<TaskView>,
    calendar: CalendarView,
    parents: Seq<bool>,
    successors: Seq<Seq<SuccessorEntryView>>,
    finish: int,
    rounds: nat,
)
    requires
        backward_step(tasks, calendar, parents, successors, finish) == tasks,
    ensures
        backward_rounds(tasks, calendar, parents, successors, finish, rounds) == tasks,
    decreases rounds,
{
    if rounds > 0 {
        lemma_backward_rounds_identity(
            tasks,
            calendar,
            parents,
            successors,
            finish,
            (rounds - 1) as nat,
        );
    }
}

/// `project_finish_upto` is the greatest finish among the tasks without
/// children: it is the finish of one of them, and none finishes later.
pub proof fn lemma_project_finish_bound(tasks: Seq<TaskView>, parents: Seq<bool>, upto: int)
    requires
        0 <= upto <= tasks.len(),
    ensures
        forall|j: int|
            0 <= j < upto && !parents[j] && (#[trigger] tasks[j]).end is Some
                ==> project_finish_upto(tasks, parents, upto) is Some && project_finish_upto(
                tasks,
                parents,
                upto,
            )->0 >= tasks[j].end->0,
        project_finish_upto(tasks, parents, upto) is Some ==> exists|j: int|
            0 <= j < upto && !parents[j] && (#[trigger] tasks[j]).end == project_finish_upto(
                tasks,
                parents,
                upto,
            ),
    decreases upto,
{
    if upto > 0 {
        lemma_project_finish_bound(tasks, parents, upto - 1);
    }
}

/// Lists that agree on finishes have the same latest finish among the tasks
/// without children.
pub proof fn lemma_project_finish_same(
    a: Seq<TaskView>,
    b: Seq<TaskView>,
    parents: Seq<bool>,
    upto: int,
)
    requires
        a.len() == b.len(),
        upto <= a.len(),
        forall|j: int| 0 <= j < a.len() ==> (#[trigger] a[j]).end == b[j].end,
    ensures
        project_finish_upto(a, parents, upto) == project_finish_upto(b, parents, upto),
    decreases upto,
{
    if upto > 0 {
        lemma_project_finish_same(a, b, parents, upto - 1);
    }
}

} // verus!
