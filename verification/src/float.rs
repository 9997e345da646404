//! Total and free float of every task.

use vstd::prelude::*;

use crate::backward::links_at;
use crate::date_utils::{signed_between, signed_or_zero};
use crate::graph::{
    depths_of, find_task, find_task_index, lemma_index_of_id, link_kind, link_kind_of, parent_flags,
    parent_flags_of, successor_map_views, successor_views, task_depths, LinkKind, SuccessorEntry,
    SuccessorEntryView,
};
use crate::levels::{
    lemma_same_hierarchy_index, level_round, level_rounds, level_task, roll_is_stable,
    roll_keeps_hierarchy, rolled_from, rolled_levels, same_children, same_hierarchy, Roll,
};
use crate::types::{number_of, task_views, Calendar, CalendarView, Task, TaskView};

verus! {

/// The lesser of two optional numbers; an absent number yields to the other.
pub open spec fn lesser_of(a: Option<int>, b: Option<int>) -> Option<int> {
    match (a, b) {
        (Some(x), Some(y)) => if y < x {
            Some(y)
        } else {
            Some(x)
        },
        (None, _) => b,
        (_, None) => a,
    }
}

/// The total float of a task: the signed count of working days from its
/// start to its late start, and 0 while either is unknown.
pub open spec fn total_float_of(calendar: CalendarView, task: TaskView) -> int {
    signed_or_zero(calendar, task.start, task.late_start)
}

/// The working days by which `task` could slip before one link to a
/// successor is broken, or `None` where the successor is not in the list,
/// has children or has no start.
///
/// With `lag` the link's lag, the slack is the signed count of working days
/// from the task's finish to the successor's start, less `1 + lag`, for a
/// finish-to-start link; from start to start, less `lag`, for
/// start-to-start; from finish to finish, less `lag`, for finish-to-finish;
/// and from the task's start to the successor's finish, less `lag`, for
/// start-to-finish.
pub open spec fn link_slack(
    tasks: Seq<TaskView>,
    calendar: CalendarView,
    parents: Seq<bool>,
    task: TaskView,
    link: SuccessorEntryView,
) -> Option<int> {
    match find_task(tasks, link.id) {
        Some(s) => if tasks[s].start is None || parents[s] {
            None
        } else {
            Some(
                match link_kind_of(link.link_type) {
                    LinkKind::FinishToStart => signed_or_zero(calendar, task.end, tasks[s].start)
                        - 1 - link.lag,
                    LinkKind::StartToStart => signed_or_zero(calendar, task.start, tasks[s].start)
                        - link.lag,
                    LinkKind::FinishToFinish => signed_or_zero(calendar, task.end, tasks[s].end)
                        - link.lag,
                    LinkKind::StartToFinish => signed_or_zero(calendar, task.start, tasks[s].end)
                        - link.lag,
                },
            )
        },
        None => None,
    }
}

/// The least slack over the first `upto` links.
pub open spec fn least_slack(
    tasks: Seq<TaskView>,
    calendar: CalendarView,
    parents: Seq<bool>,
    task: TaskView,
    links: Seq<SuccessorEntryView>,
    upto: int,
) -> Option<int>
    decreases upto,
{
    if upto <= 0 {
        None
    } else {
        lesser_of(
            least_slack(tasks, calendar, parents, task, links, upto - 1),
            link_slack(tasks, calendar, parents, task, links[upto - 1]),
        )
    }
}

/// The free float of the task at position `i`: its least slack toward a
/// successor, not below 0 and not above its total float; its total float
/// where no link gives a slack.
pub open spec fn free_float_of(
    tasks: Seq<TaskView>,
    calendar: CalendarView,
    parents: Seq<bool>,
    links: Seq<SuccessorEntryView>,
    i: int,
) -> int {
    let total = total_float_of(calendar, tasks[i]);
    match least_slack(tasks, calendar, parents, tasks[i], links, links.len() as int) {
        Some(slack) => {
            let floor = if slack < 0 {
                0
            } else {
                slack
            };
            if floor < total {
                floor
            } else {
                total
            }
        },
        None => total,
    }
}

/// The task at position `i` with its float: a task with children is left
/// for the rollup.
pub open spec fn float_task(
    tasks: Seq<TaskView>,
    calendar: CalendarView,
    successors: Seq<Seq<SuccessorEntryView>>,
    i: int,
) -> TaskView {
    let parents = parent_flags_of(tasks);
    if parents[i] {
        tasks[i]
    } else {
        TaskView {
            total_float_days: Some(total_float_of(calendar, tasks[i])),
            free_float_days: Some(
                free_float_of(tasks, calendar, parents, links_at(successors, i), i),
            ),
            ..tasks[i]
        }
    }
}

/// The task list after every task without children has its float.
pub open spec fn float_leaves(
    tasks: Seq<TaskView>,
    calendar: CalendarView,
    successors: Seq<Seq<SuccessorEntryView>>,
) -> Seq<TaskView> {
    Seq::new(tasks.len(), |i: int| float_task(tasks, calendar, successors, i))
}

/// The least total float among the children of `parent` in the first `upto`
/// tasks.
pub open spec fn children_float(tasks: Seq<TaskView>, parent: Seq<char>, upto: int) -> Option<int>
    decreases upto,
{
    if upto <= 0 {
        None
    } else if tasks[upto - 1].parent_id == Some(parent) {
        lesser_of(children_float(tasks, parent, upto - 1), tasks[upto - 1].total_float_days)
    } else {
        children_float(tasks, parent, upto - 1)
    }
}

/// The task at position `i` with the float of a task with children: the
/// least total float among its children, or 0 where none has any, and no
/// free float.
pub open spec fn float_rolled_up(tasks: Seq<TaskView>, i: int) -> TaskView {
    TaskView {
        total_float_days: Some(
            match children_float(tasks, tasks[i].id, tasks.len() as int) {
                Some(least) => least,
                None => 0,
            },
        ),
        free_float_days: Some(0),
        ..tasks[i]
    }
}

/// The rule of the float rollup.
pub open spec fn float_roll() -> Roll {
    |tasks: Seq<TaskView>, i: int| float_rolled_up(tasks, i)
}

/// The task list after float calculation.
pub open spec fn calculate_float_spec(
    tasks: Seq<TaskView>,
    calendar: CalendarView,
    successors: Seq<Seq<SuccessorEntryView>>,
) -> Seq<TaskView> {
    rolled_levels(float_leaves(tasks, calendar, successors), float_roll())
}

/// The least slack that the links leave the task at `i`.
fn least_link_slack(
    tasks: &[Task],
    i: usize,
    parents: &Vec<bool>,
    links: &Vec<SuccessorEntry>,
    calendar: &Calendar,
) -> (r: Option<i64>)
    requires
        i < tasks.len(),
        parents.len() == tasks.len(),
    ensures
        match r {
            Some(slack) => least_slack(
                task_views(tasks@),
                calendar@,
                parents@,
                task_views(tasks@)[i as int],
                successor_views(links@),
                links.len() as int,
            ) == Some(slack as int),
            None => least_slack(
                task_views(tasks@),
                calendar@,
                parents@,
                task_views(tasks@)[i as int],
                successor_views(links@),
                links.len() as int,
            ) is None,
        },
{
    let ghost views = task_views(tasks@);
    let ghost task = views[i as int];
    let mut least: Option<i64> = None;
    let mut k: usize = 0;
    while k < links.len()
        invariant
            i < tasks.len(),
            parents.len() == tasks.len(),
            views == task_views(tasks@),
            task == views[i as int],
            k <= links.len(),
            match least {
                Some(slack) => least_slack(
                    views,
                    calendar@,
                    parents@,
                    task,
                    successor_views(links@),
                    k as int,
                ) == Some(slack as int),
                None => least_slack(
                    views,
                    calendar@,
                    parents@,
                    task,
                    successor_views(links@),
                    k as int,
                ) is None,
            },
        decreases links.len() - k,
    {
        let link = &links[k];
        let lag = link.lag as i64;
        let slack: Option<i64> = match find_task_index(tasks, &link.id) {
            Some(s) => if tasks[s].start.is_none() || parents[s] {
                None
            } else {
                Some(
                    match link_kind(&link.link_type) {
                        LinkKind::FinishToStart => signed_between(
                            tasks[i].end,
                            tasks[s].start,
                            calendar,
                        ) as i64 - 1 - lag,
                        LinkKind::StartToStart => signed_between(
                            tasks[i].start,
                            tasks[s].start,
                            calendar,
                        ) as i64 - lag,
                        LinkKind::FinishToFinish => signed_between(
                            tasks[i].end,
                            tasks[s].end,
                            calendar,
                        ) as i64 - lag,
                        LinkKind::StartToFinish => signed_between(
                            tasks[i].start,
                            tasks[s].end,
                            calendar,
                        ) as i64 - lag,
                    },
                )
            },
            None => None,
        };
        least = match (least, slack) {
            (Some(x), Some(y)) => if y < x {
                Some(y)
            } else {
                Some(x)
            },
            (None, _) => slack,
            (_, None) => least,
        };
        k += 1;
    }
    least
}

/// The total and free float of the childless task at `i`.
fn leaf_float(
    tasks: &[Task],
    i: usize,
    parents: &Vec<bool>,
    links: &Vec<SuccessorEntry>,
    calendar: &Calendar,
) -> (r: (i32, i32))
    requires
        i < tasks.len(),
        parents.len() == tasks.len(),
    ensures
        r.0 == total_float_of(calendar@, task_views(tasks@)[i as int]),
        r.1 == free_float_of(
            task_views(tasks@),
            calendar@,
            parents@,
            successor_views(links@),
            i as int,
        ),
{
    let total = signed_between(tasks[i].start, tasks[i].late_start, calendar);
    let free = match least_link_slack(tasks, i, parents, links, calendar) {
        Some(slack) => {
            let floor: i64 = if slack < 0 {
                0
            } else {
                slack
            };
            if floor < total as i64 {
                floor as i32
            } else {
                total
            }
        },
        None => total,
    };
    (total, free)
}

/// Gives every task without children its total and free float.
fn float_of_leaves(
    tasks: &mut [Task],
    calendar: &Calendar,
    successor_map: &Vec<Vec<SuccessorEntry>>,
)
    ensures
        final(tasks).len() == old(tasks).len(),
        task_views(final(tasks)@) == float_leaves(
            task_views(old(tasks)@),
            calendar@,
            successor_map_views(successor_map@),
        ),
{
    let ghost before = task_views(tasks@);
    let ghost successors = successor_map_views(successor_map@);
    let count = tasks.len();
    let parents = parent_flags(tasks);
    let no_links: Vec<SuccessorEntry> = Vec::new();
    let mut floats: Vec<(Option<i32>, Option<i32>)> = Vec::new();
    let mut i: usize = 0;
    while i < count
        invariant
            i <= count,
            count == tasks.len(),
            parents@ == parent_flags_of(before),
            before == task_views(tasks@),
            successors == successor_map_views(successor_map@),
            successor_views(no_links@) == Seq::<SuccessorEntryView>::empty(),
            floats.len() == i,
            forall|j: int|
                0 <= j < i ==> {
                    let after = float_task(before, calendar@, successors, j);
                    &&& number_of((#[trigger] floats@[j]).0) == after.total_float_days
                    &&& number_of(floats@[j].1) == after.free_float_days
                },
        decreases count - i,
    {
        if parents[i] {
            floats.push((tasks[i].total_float_days, tasks[i].free_float_days));
        } else {
            let links = if i < successor_map.len() {
                &successor_map[i]
            } else {
                &no_links
            };
            let (total, free) = leaf_float(tasks, i, &parents, links, calendar);
            floats.push((Some(total), Some(free)));
        }
        i += 1;
    }
    let mut j: usize = 0;
    while j < count
        invariant
            j <= count,
            count == tasks.len(),
            before.len() == count,
            floats.len() == count,
            forall|k: int|
                0 <= k < count ==> {
                    let after = float_task(before, calendar@, successors, k);
                    &&& number_of((#[trigger] floats@[k]).0) == after.total_float_days
                    &&& number_of(floats@[k].1) == after.free_float_days
                },
            forall|k: int|
                0 <= k < j ==> (#[trigger] tasks@[k])@ == float_task(
                    before,
                    calendar@,
                    successors,
                    k,
                ),
            forall|k: int| j <= k < count ==> (#[trigger] tasks@[k])@ == before[k],
        decreases count - j,
    {
        let (total, free) = floats[j];
        tasks[j].total_float_days = total;
        tasks[j].free_float_days = free;
        j += 1;
    }
}

/// The least total float among the children of the task at `i`.
fn least_child_float(tasks: &[Task], i: usize) -> (r: Option<i32>)
    requires
        i < tasks.len(),
    ensures
        number_of(r) == children_float(
            task_views(tasks@),
            task_views(tasks@)[i as int].id,
            tasks.len() as int,
        ),
{
    let ghost views = task_views(tasks@);
    let mut least: Option<i32> = None;
    let mut j: usize = 0;
    while j < tasks.len()
        invariant
            i < tasks.len(),
            j <= tasks.len(),
            views == task_views(tasks@),
            number_of(least) == children_float(views, views[i as int].id, j as int),
        decreases tasks.len() - j,
    {
        let is_child = match &tasks[j].parent_id {
            Some(parent) => *parent == tasks[i].id,
            None => false,
        };
        if is_child {
            least = match (least, tasks[j].total_float_days) {
                (Some(x), Some(y)) => if y < x {
                    Some(y)
                } else {
                    Some(x)
                },
                (None, other) => other,
                (_, None) => least,
            };
        }
        j += 1;
    }
    least
}

/// Gives the tasks with children that lie at `depth` the float of their
/// children.
fn float_level(tasks: &mut [Task], parents: &Vec<bool>, depths: &Vec<usize>, depth: usize)
    requires
        parents.len() == old(tasks).len(),
        depths.len() == old(tasks).len(),
    ensures
        final(tasks).len() == old(tasks).len(),
        task_views(final(tasks)@) == level_round(
            task_views(old(tasks)@),
            parents@,
            depths@.map_values(|d: usize| d as nat),
            depth as nat,
            float_roll(),
        ),
{
    let ghost before = task_views(tasks@);
    let ghost levels = depths@.map_values(|d: usize| d as nat);
    let count = tasks.len();
    let mut floats: Vec<(Option<i32>, Option<i32>)> = Vec::new();
    let mut i: usize = 0;
    while i < count
        invariant
            i <= count,
            count == tasks.len(),
            parents.len() == count,
            depths.len() == count,
            levels == depths@.map_values(|d: usize| d as nat),
            before == task_views(tasks@),
            floats.len() == i,
            forall|j: int|
                0 <= j < i ==> {
                    let after = level_task(before, parents@, levels, depth as nat, float_roll(), j);
                    &&& number_of((#[trigger] floats@[j]).0) == after.total_float_days
                    &&& number_of(floats@[j].1) == after.free_float_days
                },
        decreases count - i,
    {
        if parents[i] && depths[i] == depth {
            let total = match least_child_float(tasks, i) {
                Some(least) => least,
                None => 0,
            };
            floats.push((Some(total), Some(0)));
        } else {
            floats.push((tasks[i].total_float_days, tasks[i].free_float_days));
        }
        i += 1;
    }
    let mut j: usize = 0;
    while j < count
        invariant
            j <= count,
            count == tasks.len(),
            before.len() == count,
            floats.len() == count,
            forall|k: int|
                0 <= k < count ==> {
                    let after = level_task(before, parents@, levels, depth as nat, float_roll(), k);
                    &&& number_of((#[trigger] floats@[k]).0) == after.total_float_days
                    &&& number_of(floats@[k].1) == after.free_float_days
                },
            forall|k: int|
                0 <= k < j ==> (#[trigger] tasks@[k])@ == level_task(
                    before,
                    parents@,
                    levels,
                    depth as nat,
                    float_roll(),
                    k,
                ),
            forall|k: int| j <= k < count ==> (#[trigger] tasks@[k])@ == before[k],
        decreases count - j,
    {
        let (total, free) = floats[j];
        tasks[j].total_float_days = total;
        tasks[j].free_float_days = free;
        j += 1;
    }
}

/// Computes total and free float: for every task without children from its
/// dates and its successors', then for every task with children from its
/// children, deepest level first.
pub fn calculate_float(
    tasks: &mut [Task],
    calendar: &Calendar,
    successor_map: &Vec<Vec<SuccessorEntry>>,
)
    ensures
        final(tasks).len() == old(tasks).len(),
        task_views(final(tasks)@) == calculate_float_spec(
            task_views(old(tasks)@),
            calendar@,
            successor_map_views(successor_map@),
        ),
{
    float_of_leaves(tasks, calendar, successor_map);
    let ghost leaves = task_views(tasks@);
    let parents = parent_flags(tasks);
    let (depths, deepest) = task_depths(tasks);
    let ghost levels = depths@.map_values(|d: usize| d as nat);
    assert(levels =~= depths_of(leaves));
    let mut level: usize = deepest;
    loop
        invariant_except_break
            tasks.len() == old(tasks).len(),
            parents.len() == tasks.len(),
            depths.len() == tasks.len(),
            levels == depths@.map_values(|d: usize| d as nat),
            rolled_levels(leaves, float_roll()) == level_rounds(
                task_views(tasks@),
                parents@,
                levels,
                level as int,
                float_roll(),
            ),
        ensures
            tasks.len() == old(tasks).len(),
            rolled_levels(leaves, float_roll()) == task_views(tasks@),
        decreases level,
    {
        float_level(tasks, &parents, &depths, level);
        if level == 0 {
            assert(level_rounds(task_views(tasks@), parents@, levels, -1, float_roll())
                == task_views(tasks@));
            break ;
        }
        level -= 1;
    }
}

/// Lists with the same tasks as children of `parent` give it the same least
/// total float among them.
pub proof fn lemma_children_float_agree(
    a: Seq<TaskView>,
    b: Seq<TaskView>,
    parent: Seq<char>,
    upto: int,
)
    requires
        same_hierarchy(a, b),
        same_children(a, b, parent),
        upto <= a.len(),
    ensures
        children_float(a, parent, upto) == children_float(b, parent, upto),
    decreases upto,
{
    if upto > 0 {
        lemma_children_float_agree(a, b, parent, upto - 1);
    }
}

/// The rule of the float rollup looks at nothing but a task and its
/// children, is unchanged by its own result, and keeps identifier and
/// parent.
pub proof fn lemma_float_roll()
    ensures
        roll_is_stable(float_roll()),
        roll_keeps_hierarchy(float_roll()),
{
    let roll = float_roll();
    assert forall|a: Seq<TaskView>, b: Seq<TaskView>, i: int| #[trigger]
        rolled_from(roll, a, b, i) implies roll(b, i) == roll(a, i) by {
        lemma_children_float_agree(a, b, a[i].id, a.len() as int);
    }
    assert forall|a: Seq<TaskView>, i: int| 0 <= i < a.len() implies (#[trigger] roll(a, i)).id
        == a[i].id && roll(a, i).parent_id == a[i].parent_id by {}
}

/// `children_float` is the least total float among the children that have
/// one: it is the float of one of them and no child has less.
pub proof fn lemma_children_float_bound(tasks: Seq<TaskView>, parent: Seq<char>, upto: int)
    requires
        0 <= upto <= tasks.len(),
    ensures
        forall|j: int|
            0 <= j < upto && (#[trigger] tasks[j]).parent_id == Some(parent)
                && tasks[j].total_float_days is Some ==> children_float(tasks, parent, upto)
                is Some && children_float(tasks, parent, upto)->0 <= tasks[j].total_float_days->0,
        children_float(tasks, parent, upto) is Some ==> exists|j: int|
            0 <= j < upto && (#[trigger] tasks[j]).parent_id == Some(parent)
                && tasks[j].total_float_days == children_float(tasks, parent, upto),
    decreases upto,
{
    if upto > 0 {
        lemma_children_float_bound(tasks, parent, upto - 1);
    }
}

/// Lists that agree on parents and total float give a parent the same least
/// total float among its children.
pub proof fn lemma_children_float_same(
    a: Seq<TaskView>,
    b: Seq<TaskView>,
    parent: Seq<char>,
    upto: int,
)
    requires
        a.len() == b.len(),
        upto <= a.len(),
        forall|j: int|
            0 <= j < a.len() ==> (#[trigger] a[j]).parent_id == b[j].parent_id
                && a[j].total_float_days == b[j].total_float_days,
    ensures
        children_float(a, parent, upto) == children_float(b, parent, upto),
    decreases upto,
{
    if upto > 0 {
        lemma_children_float_same(a, b, parent, upto - 1);
    }
}

/// Lists that agree on hierarchy, starts and finishes leave a task the same
/// slack toward its successors.
pub proof fn lemma_least_slack_same(
    a: Seq<TaskView>,
    b: Seq<TaskView>,
    calendar: CalendarView,
    parents: Seq<bool>,
    i: int,
    links: Seq<SuccessorEntryView>,
    upto: int,
)
    requires
        same_hierarchy(a, b),
        0 <= i < a.len(),
        upto <= links.len(),
        forall|j: int|
            0 <= j < a.len() ==> (#[trigger] a[j]).start == b[j].start && a[j].end == b[j].end,
    ensures
        least_slack(a, calendar, parents, a[i], links, upto) == least_slack(
            b,
            calendar,
            parents,
            b[i],
            links,
            upto,
        ),
    decreases upto,
{
    if upto > 0 {
        lemma_least_slack_same(a, b, calendar, parents, i, links, upto - 1);
        let link = links[upto - 1];
        lemma_same_hierarchy_index(a, b, link.id, 0);
        lemma_index_of_id(a, link.id, 0);
        match find_task(a, link.id) {
            Some(s) => {
            },
            None => {},
        }
    }
}

} // verus!
