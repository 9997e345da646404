//! Working through the hierarchy level by level, deepest first.
//!
//! Dates, float and criticality of a task with children are all taken from
//! its children. Each is computed by the same walk: the tasks with children
//! at the deepest level are rolled up first, then those one level up, and so
//! on to the roots, so that a task's children are final before it is
//! rolled up itself.

use vstd::prelude::*;

use crate::graph::{
    deepest_of, deepest_upto, depth_from, depth_of_id, depths_of, find_task, hierarchy_ok,
    ids_unique, index_of_id, is_parent_id, lemma_depth_from_stable, lemma_find_unique,
    lemma_index_of_id, parent_flags_of,
};
use crate::types::TaskView;

verus! {

/// A rule that says what a task with children becomes, given the list.
pub type Roll = spec_fn(Seq<TaskView>, int) -> TaskView;

/// The task at position `i` after the tasks with children at `depth` have
/// been rolled up by `roll`.
pub open spec fn level_task(
    tasks: Seq<TaskView>,
    parents: Seq<bool>,
    depths: Seq<nat>,
    depth: nat,
    roll: Roll,
    i: int,
) -> TaskView {
    if parents[i] && depths[i] == depth {
        roll(tasks, i)
    } else {
        tasks[i]
    }
}

/// The task list after the level `depth` has been rolled up.
pub open spec fn level_round(
    tasks: Seq<TaskView>,
    parents: Seq<bool>,
    depths: Seq<nat>,
    depth: nat,
    roll: Roll,
) -> Seq<TaskView> {
    Seq::new(tasks.len(), |i: int| level_task(tasks, parents, depths, depth, roll, i))
}

/// The task list after the levels `depth`, `depth - 1`, down to 0 have been
/// rolled up, in that order.
pub open spec fn level_rounds(
    tasks: Seq<TaskView>,
    parents: Seq<bool>,
    depths: Seq<nat>,
    depth: int,
    roll: Roll,
) -> Seq<TaskView>
    decreases depth + 1,
{
    if depth < 0 {
        tasks
    } else {
        level_rounds(
            level_round(tasks, parents, depths, depth as nat, roll),
            parents,
            depths,
            depth - 1,
            roll,
        )
    }
}

/// The task list after every level has been rolled up, deepest first.
pub open spec fn rolled_levels(tasks: Seq<TaskView>, roll: Roll) -> Seq<TaskView> {
    level_rounds(tasks, parent_flags_of(tasks), depths_of(tasks), deepest_of(tasks) as int, roll)
}

/// Whether two task lists have the same length and, place for place, the
/// same identifiers and parents.
pub open spec fn same_hierarchy(a: Seq<TaskView>, b: Seq<TaskView>) -> bool {
    &&& a.len() == b.len()
    &&& forall|j: int|
        0 <= j < a.len() ==> (#[trigger] a[j]).id == b[j].id && a[j].parent_id == b[j].parent_id
}

/// Whether `b` holds the same task as `a` wherever `a` holds a child of the
/// task with identifier `parent`.
pub open spec fn same_children(a: Seq<TaskView>, b: Seq<TaskView>, parent: Seq<char>) -> bool {
    forall|j: int| 0 <= j < a.len() && (#[trigger] a[j]).parent_id == Some(parent) ==> b[j] == a[j]
}

/// Whether position `i` of `b` has been rolled up from `a` while the
/// children of its task are the same in both.
pub open spec fn rolled_from(roll: Roll, a: Seq<TaskView>, b: Seq<TaskView>, i: int) -> bool {
    &&& 0 <= i < a.len()
    &&& same_hierarchy(a, b)
    &&& same_children(a, b, a[i].id)
    &&& b[i] == roll(a, i)
}

/// Whether a rule looks at nothing but a task and its children, and gives
/// the same again when applied to its own result.
pub open spec fn roll_is_stable(roll: Roll) -> bool {
    forall|a: Seq<TaskView>, b: Seq<TaskView>, i: int| #[trigger]
        rolled_from(roll, a, b, i) ==> roll(b, i) == roll(a, i)
}

/// Whether a rule leaves identifier and parent of the task it is applied to
/// alone.
pub open spec fn roll_keeps_hierarchy(roll: Roll) -> bool {
    forall|a: Seq<TaskView>, i: int|
        0 <= i < a.len() ==> (#[trigger] roll(a, i)).id == a[i].id && roll(a, i).parent_id
            == a[i].parent_id
}

/// Whether every child lies one level below its parent.
pub open spec fn children_one_deeper(tasks: Seq<TaskView>, depths: Seq<nat>) -> bool {
    forall|i: int, j: int|
        0 <= i < tasks.len() && 0 <= j < tasks.len() && (#[trigger] tasks[j]).parent_id == Some(
            (#[trigger] tasks[i]).id,
        ) ==> depths[j] == depths[i] + 1
}

/// A level round keeps length, identifiers and parents.
pub proof fn lemma_level_round_hierarchy(
    tasks: Seq<TaskView>,
    parents: Seq<bool>,
    depths: Seq<nat>,
    depth: nat,
    roll: Roll,
)
    requires
        roll_keeps_hierarchy(roll),
    ensures
        same_hierarchy(tasks, level_round(tasks, parents, depths, depth, roll)),
{
    let after = level_round(tasks, parents, depths, depth, roll);
    assert forall|j: int| 0 <= j < tasks.len() implies (#[trigger] tasks[j]).id == after[j].id
        && tasks[j].parent_id == after[j].parent_id by {}
}

/// Level rounds keep length, identifiers and parents.
pub proof fn lemma_level_rounds_hierarchy(
    tasks: Seq<TaskView>,
    parents: Seq<bool>,
    depths: Seq<nat>,
    depth: int,
    roll: Roll,
)
    requires
        roll_keeps_hierarchy(roll),
    ensures
        same_hierarchy(tasks, level_rounds(tasks, parents, depths, depth, roll)),
    decreases depth + 1,
{
    if depth >= 0 {
        let next = level_round(tasks, parents, depths, depth as nat, roll);
        lemma_level_round_hierarchy(tasks, parents, depths, depth as nat, roll);
        lemma_level_rounds_hierarchy(next, parents, depths, depth - 1, roll);
        let last = level_rounds(next, parents, depths, depth - 1, roll);
        assert forall|j: int| 0 <= j < tasks.len() implies (#[trigger] tasks[j]).id == last[j].id
            && tasks[j].parent_id == last[j].parent_id by {}
    }
}

/// Level rounds leave every task without children as it was.
pub proof fn lemma_level_rounds_leaves(
    tasks: Seq<TaskView>,
    parents: Seq<bool>,
    depths: Seq<nat>,
    depth: int,
    roll: Roll,
    i: int,
)
    requires
        0 <= i < tasks.len(),
        !parents[i],
    ensures
        level_rounds(tasks, parents, depths, depth, roll).len() == tasks.len(),
        level_rounds(tasks, parents, depths, depth, roll)[i] == tasks[i],
    decreases depth + 1,
{
    if depth >= 0 {
        let next = level_round(tasks, parents, depths, depth as nat, roll);
        lemma_level_rounds_leaves(next, parents, depths, depth - 1, roll, i);
    }
}

/// Whether every task with children at a level deeper than `depth` is what
/// the rule makes of it.
pub open spec fn settled_below(
    tasks: Seq<TaskView>,
    parents: Seq<bool>,
    depths: Seq<nat>,
    depth: int,
    roll: Roll,
) -> bool {
    forall|i: int|
        0 <= i < tasks.len() && parents[i] && depths[i] > depth ==> (#[trigger] tasks[i]) == roll(
            tasks,
            i,
        )
}

/// One level round settles its level and keeps the deeper levels settled.
pub proof fn lemma_level_round_settles(
    tasks: Seq<TaskView>,
    parents: Seq<bool>,
    depths: Seq<nat>,
    depth: nat,
    roll: Roll,
)
    requires
        roll_is_stable(roll),
        roll_keeps_hierarchy(roll),
        children_one_deeper(tasks, depths),
        settled_below(tasks, parents, depths, depth as int, roll),
    ensures
        settled_below(
            level_round(tasks, parents, depths, depth, roll),
            parents,
            depths,
            depth - 1,
            roll,
        ),
{
    let after = level_round(tasks, parents, depths, depth, roll);
    lemma_level_round_hierarchy(tasks, parents, depths, depth, roll);
    assert forall|i: int| 0 <= i < after.len() && parents[i] && depths[i] > depth - 1 implies (
    #[trigger] after[i]) == roll(after, i) by {
        assert(after[i] == roll(tasks, i));
        assert(same_children(tasks, after, tasks[i].id)) by {
            assert forall|j: int|
                0 <= j < tasks.len() && (#[trigger] tasks[j]).parent_id == Some(
                    tasks[i].id,
                ) implies after[j] == tasks[j] by {}
        }
        assert(rolled_from(roll, tasks, after, i));
    }
}

/// After the level rounds from `depth` down, every task with children is
/// what the rule makes of it, provided the deeper levels were settled.
pub proof fn lemma_level_rounds_settle(
    tasks: Seq<TaskView>,
    parents: Seq<bool>,
    depths: Seq<nat>,
    depth: int,
    roll: Roll,
)
    requires
        roll_is_stable(roll),
        roll_keeps_hierarchy(roll),
        children_one_deeper(tasks, depths),
        settled_below(tasks, parents, depths, depth, roll),
        depth >= -1,
    ensures
        settled_below(level_rounds(tasks, parents, depths, depth, roll), parents, depths, -1, roll),
    decreases depth + 1,
{
    if depth >= 0 {
        let next = level_round(tasks, parents, depths, depth as nat, roll);
        lemma_level_round_settles(tasks, parents, depths, depth as nat, roll);
        lemma_level_round_hierarchy(tasks, parents, depths, depth as nat, roll);
        assert(children_one_deeper(next, depths)) by {
            assert forall|i: int, j: int|
                0 <= i < next.len() && 0 <= j < next.len() && (#[trigger] next[j]).parent_id
                    == Some((#[trigger] next[i]).id) implies depths[j] == depths[i] + 1 by {}
        }
        lemma_level_rounds_settle(next, parents, depths, depth - 1, roll);
    }
}

/// No depth among the first `upto` exceeds `deepest_upto`.
pub proof fn lemma_deepest_upto(depths: Seq<nat>, upto: int, i: int)
    requires
        0 <= i < upto,
    ensures
        depths[i] <= deepest_upto(depths, upto),
    decreases upto,
{
    if i < upto - 1 {
        lemma_deepest_upto(depths, upto - 1, i);
    }
}

/// Once every level has been rolled up, every task with children is what
/// the rule makes of it, and every task without children is as it was.
pub proof fn lemma_rolled_levels_settled(tasks: Seq<TaskView>, roll: Roll, i: int)
    requires
        roll_is_stable(roll),
        roll_keeps_hierarchy(roll),
        children_one_deeper(tasks, depths_of(tasks)),
        0 <= i < tasks.len(),
    ensures
        rolled_levels(tasks, roll).len() == tasks.len(),
        same_hierarchy(tasks, rolled_levels(tasks, roll)),
        parent_flags_of(tasks)[i] ==> rolled_levels(tasks, roll)[i] == roll(
            rolled_levels(tasks, roll),
            i,
        ),
        !parent_flags_of(tasks)[i] ==> rolled_levels(tasks, roll)[i] == tasks[i],
{
    let parents = parent_flags_of(tasks);
    let depths = depths_of(tasks);
    let deepest = deepest_of(tasks) as int;
    assert(settled_below(tasks, parents, depths, deepest, roll)) by {
        assert forall|k: int|
            0 <= k < tasks.len() && parents[k] && depths[k] > deepest implies (
        #[trigger] tasks[k]) == roll(tasks, k) by {
            lemma_deepest_upto(depths, tasks.len() as int, k);
        }
    }
    lemma_level_rounds_settle(tasks, parents, depths, deepest, roll);
    lemma_level_rounds_hierarchy(tasks, parents, depths, deepest, roll);
    if !parents[i] {
        lemma_level_rounds_leaves(tasks, parents, depths, deepest, roll, i);
    }
}

/// In a well-formed hierarchy every child lies one level below its parent.
pub proof fn lemma_children_one_deeper(tasks: Seq<TaskView>)
    requires
        hierarchy_ok(tasks),
    ensures
        children_one_deeper(tasks, depths_of(tasks)),
{
    let depths = depths_of(tasks);
    let count = tasks.len();
    assert forall|i: int, j: int|
        0 <= i < tasks.len() && 0 <= j < tasks.len() && (#[trigger] tasks[j]).parent_id == Some(
            (#[trigger] tasks[i]).id,
        ) implies depths[j] == depths[i] + 1 by {
        lemma_find_unique(tasks, j);
        lemma_depth_from_stable(tasks, tasks[i].id, (count - 1) as nat, count);
    }
}

/// Lists with the same identifiers find the same task under an identifier.
pub proof fn lemma_same_hierarchy_index(
    a: Seq<TaskView>,
    b: Seq<TaskView>,
    id: Seq<char>,
    from: int,
)
    requires
        same_hierarchy(a, b),
    ensures
        index_of_id(a, id, from) == index_of_id(b, id, from),
    decreases a.len() - from,
{
    if 0 <= from < a.len() {
        if a[from].id != id {
            lemma_same_hierarchy_index(a, b, id, from + 1);
        }
    }
}

/// Lists with the same identifiers and parents give every identifier the
/// same depth.
pub proof fn lemma_same_hierarchy_depth(
    a: Seq<TaskView>,
    b: Seq<TaskView>,
    id: Seq<char>,
    fuel: nat,
)
    requires
        same_hierarchy(a, b),
    ensures
        depth_from(a, id, fuel) == depth_from(b, id, fuel),
    decreases fuel,
{
    lemma_same_hierarchy_index(a, b, id, 0);
    if fuel > 0 {
        match find_task(a, id) {
            Some(found) => {
                lemma_index_of_id(a, id, 0);
                match a[found].parent_id {
                    Some(parent) => {
                        lemma_same_hierarchy_depth(a, b, parent, (fuel - 1) as nat);
                    },
                    None => {},
                }
            },
            None => {},
        }
    }
}

/// Lists with the same identifiers and parents have the same tasks with
/// children, the same depths and the same lookups.
pub proof fn lemma_same_hierarchy(a: Seq<TaskView>, b: Seq<TaskView>)
    requires
        same_hierarchy(a, b),
    ensures
        parent_flags_of(a) == parent_flags_of(b),
        depths_of(a) == depths_of(b),
        deepest_of(a) == deepest_of(b),
        forall|id: Seq<char>| #[trigger] find_task(a, id) == find_task(b, id),
        forall|id: Seq<char>| #[trigger] is_parent_id(a, id) == is_parent_id(b, id),
        ids_unique(a) == ids_unique(b),
        hierarchy_ok(a) == hierarchy_ok(b),
{
    assert forall|id: Seq<char>| #[trigger] find_task(a, id) == find_task(b, id) by {
        lemma_same_hierarchy_index(a, b, id, 0);
    }
    assert forall|id: Seq<char>| #[trigger] is_parent_id(a, id) == is_parent_id(b, id) by {
        if is_parent_id(a, id) {
            let j = choose|j: int| 0 <= j < a.len() && (#[trigger] a[j]).parent_id == Some(id);
        }
        if is_parent_id(b, id) {
            let j = choose|j: int| 0 <= j < b.len() && (#[trigger] b[j]).parent_id == Some(id);
            assert(a[j].parent_id == Some(id));
        }
    }
    assert(parent_flags_of(a) =~= parent_flags_of(b)) by {
        assert forall|i: int| 0 <= i < a.len() implies parent_flags_of(a)[i] == parent_flags_of(
            b,
        )[i] by {}
    }
    assert(depths_of(a) =~= depths_of(b)) by {
        assert forall|i: int| 0 <= i < a.len() implies depths_of(a)[i] == depths_of(b)[i] by {
            lemma_same_hierarchy_depth(a, b, a[i].id, a.len());
        }
    }
    assert(ids_unique(a) == ids_unique(b)) by {
        if ids_unique(a) {
            assert forall|i: int, j: int| 0 <= i < j < b.len() implies (#[trigger] b[i]).id != (
            #[trigger] b[j]).id by {
                assert(a[i].id != a[j].id);
            }
        }
        if ids_unique(b) {
            assert forall|i: int, j: int| 0 <= i < j < a.len() implies (#[trigger] a[i]).id != (
            #[trigger] a[j]).id by {}
        }
    }
    assert(hierarchy_ok(a) == hierarchy_ok(b)) by {
        if hierarchy_ok(a) {
            assert forall|j: int| 0 <= j < b.len() implies depth_of_id(b, (#[trigger] b[j]).id)
                < b.len() by {
                assert(depths_of(a)[j] == depths_of(b)[j]);
            }
        }
        if hierarchy_ok(b) {
            assert forall|j: int| 0 <= j < a.len() implies depth_of_id(a, (#[trigger] a[j]).id)
                < a.len() by {
                assert(depths_of(a)[j] == depths_of(b)[j]);
            }
        }
    }
}

/// A projection of a task: the part of it that a pass leaves alone.
pub type Keep = spec_fn(TaskView) -> TaskView;

/// Whether a rule leaves the projected part of a task alone.
pub open spec fn roll_keeps(roll: Roll, keep: Keep) -> bool {
    forall|a: Seq<TaskView>, i: int| 0 <= i < a.len() ==> keep(#[trigger] roll(a, i)) == keep(a[i])
}

/// Level rounds leave alone what their rule leaves alone.
pub proof fn lemma_level_rounds_keep(
    tasks: Seq<TaskView>,
    parents: Seq<bool>,
    depths: Seq<nat>,
    depth: int,
    roll: Roll,
    keep: Keep,
    i: int,
)
    requires
        roll_keeps(roll, keep),
        0 <= i < tasks.len(),
    ensures
        level_rounds(tasks, parents, depths, depth, roll).len() == tasks.len(),
        keep(level_rounds(tasks, parents, depths, depth, roll)[i]) == keep(tasks[i]),
    decreases depth + 1,
{
    if depth >= 0 {
        let next = level_round(tasks, parents, depths, depth as nat, roll);
        assert(keep(next[i]) == keep(tasks[i]));
        lemma_level_rounds_keep(next, parents, depths, depth - 1, roll, keep, i);
    }
}

/// Level rounds change nothing in a list whose tasks with children are
/// already what the rule makes of them.
pub proof fn lemma_level_rounds_identity(
    tasks: Seq<TaskView>,
    parents: Seq<bool>,
    depths: Seq<nat>,
    depth: int,
    roll: Roll,
)
    requires
        forall|i: int| 0 <= i < tasks.len() && parents[i] ==> roll(tasks, i) == #[trigger] tasks[i],
    ensures
        level_rounds(tasks, parents, depths, depth, roll) == tasks,
    decreases depth + 1,
{
    if depth >= 0 {
        let next = level_round(tasks, parents, depths, depth as nat, roll);
        assert(next =~= tasks);
        lemma_level_rounds_identity(tasks, parents, depths, depth - 1, roll);
    }
}

} // verus!
