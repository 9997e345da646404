//! The structure of a task list: link and constraint kinds, lookup by
//! identifier, the parent relation, depth in the hierarchy and the successor
//! index.

use vstd::prelude::*;

use crate::types::{task_views, Task, TaskView};

verus! {

/// The four kinds of precedence link.
#[derive(Clone, Copy, Debug, PartialEq, Eq, Structural)]
pub enum LinkKind {
    FinishToStart,
    StartToStart,
    FinishToFinish,
    StartToFinish,
}

/// The kind a link type text stands for; any unknown text is finish-to-start.
pub open spec fn link_kind_of(text: Seq<char>) -> LinkKind {
    if text == "SS"@ {
        LinkKind::StartToStart
    } else if text == "FF"@ {
        LinkKind::FinishToFinish
    } else if text == "SF"@ {
        LinkKind::StartToFinish
    } else {
        LinkKind::FinishToStart
    }
}

/// Reads a link type.
pub fn link_kind(text: &String) -> (r: LinkKind)
    ensures
        r == link_kind_of(text@),
{
    if *text == "SS".to_owned() {
        LinkKind::StartToStart
    } else if *text == "FF".to_owned() {
        LinkKind::FinishToFinish
    } else if *text == "SF".to_owned() {
        LinkKind::StartToFinish
    } else {
        LinkKind::FinishToStart
    }
}

/// The six kinds of date constraint.
#[derive(Clone, Copy, Debug, PartialEq, Eq, Structural)]
pub enum ConstraintKind {
    /// As soon as possible: no constraint.
    Asap,
    /// Start no earlier than the constraint date.
    Snet,
    /// Start no later than the constraint date.
    Snlt,
    /// Finish no earlier than the constraint date.
    Fnet,
    /// Finish no later than the constraint date.
    Fnlt,
    /// Must finish on the constraint date.
    Mfo,
}

/// The text that `str::to_lowercase` makes of a text.
pub uninterp spec fn lowercase_text(text: Seq<char>) -> Seq<char>;

/// Calls `str::to_lowercase`. Trusted: the result is named `lowercase_text`,
/// nothing more is claimed of it.
#[verifier::external_body]
fn lowercase(text: &str) -> (r: String)
    ensures
        r@ == lowercase_text(text@),
{
    text.to_lowercase()
}

/// The kind a constraint type text stands for, read without regard to case;
/// any unknown text is `Asap`.
pub open spec fn constraint_kind_of(text: Seq<char>) -> ConstraintKind {
    let lower = lowercase_text(text);
    if lower == "snet"@ {
        ConstraintKind::Snet
    } else if lower == "snlt"@ {
        ConstraintKind::Snlt
    } else if lower == "fnet"@ {
        ConstraintKind::Fnet
    } else if lower == "fnlt"@ {
        ConstraintKind::Fnlt
    } else if lower == "mfo"@ {
        ConstraintKind::Mfo
    } else {
        ConstraintKind::Asap
    }
}

/// Reads a constraint type.
pub fn constraint_kind(text: &String) -> (r: ConstraintKind)
    ensures
        r == constraint_kind_of(text@),
{
    let lower = lowercase(text.as_str());
    if lower == "snet".to_owned() {
        ConstraintKind::Snet
    } else if lower == "snlt".to_owned() {
        ConstraintKind::Snlt
    } else if lower == "fnet".to_owned() {
        ConstraintKind::Fnet
    } else if lower == "fnlt".to_owned() {
        ConstraintKind::Fnlt
    } else if lower == "mfo".to_owned() {
        ConstraintKind::Mfo
    } else {
        ConstraintKind::Asap
    }
}

/// The working days between a task's start and its finish: one less than its
/// duration, and 0 for a milestone or a negative duration.
pub open spec fn duration_offset(duration: int) -> int {
    if duration <= 0 {
        0
    } else {
        duration - 1
    }
}

/// The working days to add to a task's start to reach its finish.
pub fn get_duration_offset(duration: i32) -> (r: i32)
    ensures
        r == duration_offset(duration as int),
        0 <= r,
{
    if duration <= 0 {
        0
    } else {
        duration - 1
    }
}

/// The first position at or after `from` whose task has the identifier `id`.
pub open spec fn index_of_id(tasks: Seq<TaskView>, id: Seq<char>, from: int) -> Option<int>
    decreases tasks.len() - from,
{
    if from < 0 || from >= tasks.len() {
        None
    } else if tasks[from].id == id {
        Some(from)
    } else {
        index_of_id(tasks, id, from + 1)
    }
}

/// The position of the first task with the identifier `id`.
pub open spec fn find_task(tasks: Seq<TaskView>, id: Seq<char>) -> Option<int> {
    index_of_id(tasks, id, 0)
}

/// What `index_of_id` finds is a position at or after `from` that holds `id`,
/// and no earlier position from `from` on holds it.
pub proof fn lemma_index_of_id(tasks: Seq<TaskView>, id: Seq<char>, from: int)
    requires
        0 <= from,
    ensures
        match index_of_id(tasks, id, from) {
            Some(found) => from <= found < tasks.len() && tasks[found].id == id && forall|k: int|
                from <= k < found ==> (#[trigger] tasks[k]).id != id,
            None => forall|k: int| from <= k < tasks.len() ==> (#[trigger] tasks[k]).id != id,
        },
    decreases tasks.len() - from,
{
    if from < tasks.len() && tasks[from].id != id {
        lemma_index_of_id(tasks, id, from + 1);
    }
}

/// Looks a task up by identifier.
pub fn find_task_index(tasks: &[Task], id: &String) -> (r: Option<usize>)
    ensures
        match r {
            Some(found) => find_task(task_views(tasks@), id@) == Some(found as int) && found
                < tasks.len(),
            None => find_task(task_views(tasks@), id@) is None,
        },
{
    let mut i: usize = 0;
    while i < tasks.len()
        invariant
            i <= tasks.len(),
            find_task(task_views(tasks@), id@) == index_of_id(task_views(tasks@), id@, i as int),
        decreases tasks.len() - i,
    {
        if tasks[i].id == *id {
            return Some(i);
        }
        i += 1;
    }
    None
}

/// Whether some task names `id` as its parent.
pub open spec fn is_parent_id(tasks: Seq<TaskView>, id: Seq<char>) -> bool {
    exists|j: int| 0 <= j < tasks.len() && (#[trigger] tasks[j]).parent_id == Some(id)
}

/// Whether the task with identifier `task_id` has children.
pub fn is_parent(task_id: &String, tasks: &[Task]) -> (r: bool)
    ensures
        r == is_parent_id(task_views(tasks@), task_id@),
{
    let mut i: usize = 0;
    while i < tasks.len()
        invariant
            i <= tasks.len(),
            forall|j: int| 0 <= j < i ==> (#[trigger] task_views(tasks@)[j]).parent_id != Some(task_id@),
        decreases tasks.len() - i,
    {
        let found = match &tasks[i].parent_id {
            Some(parent) => *parent == *task_id,
            None => false,
        };
        if found {
            assert(task_views(tasks@)[i as int].parent_id == Some(task_id@));
            return true;
        }
        i += 1;
    }
    false
}

/// For each position, whether its task has children.
pub open spec fn parent_flags_of(tasks: Seq<TaskView>) -> Seq<bool> {
    Seq::new(tasks.len(), |i: int| is_parent_id(tasks, tasks[i].id))
}

/// Computes, for each task, whether it has children.
pub fn parent_flags(tasks: &[Task]) -> (r: Vec<bool>)
    ensures
        r@ == parent_flags_of(task_views(tasks@)),
{
    let mut flags: Vec<bool> = Vec::new();
    let mut i: usize = 0;
    while i < tasks.len()
        invariant
            i <= tasks.len(),
            flags.len() == i,
            forall|j: int| 0 <= j < i ==> flags@[j] == is_parent_id(
                task_views(tasks@),
                #[trigger] task_views(tasks@)[j].id,
            ),
        decreases tasks.len() - i,
    {
        let flag = is_parent(&tasks[i].id, tasks);
        flags.push(flag);
        i += 1;
    }
    flags
}

/// The number of parent links followed from the task with identifier `id`
/// until a task without parent, or an identifier that no task has, is
/// reached; at most `fuel` links are followed.
pub open spec fn depth_from(tasks: Seq<TaskView>, id: Seq<char>, fuel: nat) -> nat
    decreases fuel,
{
    if fuel == 0 {
        0
    } else {
        match find_task(tasks, id) {
            Some(found) => match tasks[found].parent_id {
                Some(parent) => 1 + depth_from(tasks, parent, (fuel - 1) as nat),
                None => 0,
            },
            None => 0,
        }
    }
}

/// The depth of the task with identifier `id`: 0 for a root. In a hierarchy
/// without cycles no chain of parents is longer than the task list, so the
/// bound is never met.
pub open spec fn depth_of_id(tasks: Seq<TaskView>, id: Seq<char>) -> nat {
    depth_from(tasks, id, tasks.len())
}

/// For each position, the depth of its task.
pub open spec fn depths_of(tasks: Seq<TaskView>) -> Seq<nat> {
    Seq::new(tasks.len(), |i: int| depth_of_id(tasks, tasks[i].id))
}

/// The depth of the task with identifier `task_id` in the hierarchy.
pub fn get_depth(task_id: &String, tasks: &[Task]) -> (r: usize)
    ensures
        r == depth_of_id(task_views(tasks@), task_id@),
        r <= tasks.len(),
{
    let mut depth: usize = 0;
    let mut fuel: usize = tasks.len();
    let mut current: String = task_id.clone();
    while fuel > 0
        invariant
            depth + fuel == tasks.len(),
            depth_of_id(task_views(tasks@), task_id@) == depth + depth_from(
                task_views(tasks@),
                current@,
                fuel as nat,
            ),
        decreases fuel,
    {
        match find_task_index(tasks, &current) {
            Some(found) => {
                match &tasks[found].parent_id {
                    Some(parent) => {
                        current = parent.clone();
                        depth += 1;
                        fuel -= 1;
                    },
                    None => {
                        return depth;
                    },
                }
            },
            None => {
                return depth;
            },
        }
    }
    depth
}

/// The greatest of the first `upto` depths, and 0 where there is none.
pub open spec fn deepest_upto(depths: Seq<nat>, upto: int) -> nat
    decreases upto,
{
    if upto <= 0 {
        0
    } else {
        let rest = deepest_upto(depths, upto - 1);
        if depths[upto - 1] > rest {
            depths[upto - 1]
        } else {
            rest
        }
    }
}

/// The greatest depth in the task list.
pub open spec fn deepest_of(tasks: Seq<TaskView>) -> nat {
    deepest_upto(depths_of(tasks), tasks.len() as int)
}

/// Computes the depth of every task, and the greatest of them.
pub fn task_depths(tasks: &[Task]) -> (r: (Vec<usize>, usize))
    ensures
        r.0@.len() == tasks.len(),
        forall|j: int| 0 <= j < tasks.len() ==> r.0@[j] == #[trigger] depths_of(task_views(tasks@))[j],
        r.1 == deepest_of(task_views(tasks@)),
        r.1 <= tasks.len(),
{
    let mut depths: Vec<usize> = Vec::new();
    let mut deepest: usize = 0;
    let mut i: usize = 0;
    while i < tasks.len()
        invariant
            i <= tasks.len(),
            depths.len() == i,
            deepest <= tasks.len(),
            forall|j: int| 0 <= j < i ==> depths@[j] == #[trigger] depths_of(task_views(tasks@))[j],
            deepest == deepest_upto(depths_of(task_views(tasks@)), i as int),
        decreases tasks.len() - i,
    {
        let depth = get_depth(&tasks[i].id, tasks);
        if depth > deepest {
            deepest = depth;
        }
        depths.push(depth);
        i += 1;
    }
    (depths, deepest)
}

/// Whether no two tasks share an identifier.
pub open spec fn ids_unique(tasks: Seq<TaskView>) -> bool {
    forall|i: int, j: int|
        0 <= i < j < tasks.len() ==> (#[trigger] tasks[i]).id != (#[trigger] tasks[j]).id
}

/// Whether the task list is a well-formed hierarchy: identifiers are unique
/// and every chain of parents ends before it has passed through as many
/// tasks as the list holds. The second excludes a task that is its own
/// ancestor.
pub open spec fn hierarchy_ok(tasks: Seq<TaskView>) -> bool {
    &&& ids_unique(tasks)
    &&& forall|j: int|
        0 <= j < tasks.len() ==> depth_of_id(tasks, (#[trigger] tasks[j]).id) < tasks.len()
}

/// Checks whether the task list is a well-formed hierarchy.
pub fn check_hierarchy(tasks: &[Task]) -> (r: bool)
    ensures
        r == hierarchy_ok(task_views(tasks@)),
{
    let ghost views = task_views(tasks@);
    let count = tasks.len();
    let mut i: usize = 0;
    while i < count
        invariant
            i <= count,
            count == tasks.len(),
            views == task_views(tasks@),
            forall|a: int, b: int|
                0 <= a < b < count && a < i ==> (#[trigger] views[a]).id != (#[trigger] views[b]).id,
        decreases count - i,
    {
        let mut j: usize = i + 1;
        while j < count
            invariant
                i < j <= count,
                count == tasks.len(),
                views == task_views(tasks@),
                forall|b: int| i < b < j ==> views[i as int].id != (#[trigger] views[b]).id,
            decreases count - j,
        {
            if tasks[i].id == tasks[j].id {
                assert(views[i as int].id == views[j as int].id);
                return false;
            }
            j += 1;
        }
        i += 1;
    }
    let mut k: usize = 0;
    while k < count
        invariant
            k <= count,
            count == tasks.len(),
            views == task_views(tasks@),
            forall|j: int| 0 <= j < k ==> depth_of_id(views, (#[trigger] views[j]).id) < count,
        decreases count - k,
    {
        if get_depth(&tasks[k].id, tasks) >= count {
            assert(!(depth_of_id(views, views[k as int].id) < views.len()));
            return false;
        }
        k += 1;
    }
    true
}

/// With unique identifiers, looking up a task's identifier finds the task.
pub proof fn lemma_find_unique(tasks: Seq<TaskView>, j: int)
    requires
        ids_unique(tasks),
        0 <= j < tasks.len(),
    ensures
        find_task(tasks, tasks[j].id) == Some(j),
{
    lemma_index_of_id(tasks, tasks[j].id, 0);
}

/// A chain of parents that ends before the fuel does is as long with any
/// more fuel.
pub proof fn lemma_depth_from_stable(tasks: Seq<TaskView>, id: Seq<char>, fuel: nat, more: nat)
    requires
        depth_from(tasks, id, fuel) < fuel,
        fuel <= more,
    ensures
        depth_from(tasks, id, more) == depth_from(tasks, id, fuel),
    decreases fuel,
{
    if fuel > 0 {
        match find_task(tasks, id) {
            Some(found) => match tasks[found].parent_id {
                Some(parent) => {
                    lemma_depth_from_stable(
                        tasks,
                        parent,
                        (fuel - 1) as nat,
                        (more - 1) as nat,
                    );
                },
                None => {},
            },
            None => {},
        }
    }
}

/// A link seen from the predecessor's side: the task that follows it.
#[derive(Clone, Debug, PartialEq, Eq)]
pub struct SuccessorEntry {
    /// Identifier of the successor.
    pub id: String,
    /// The link type as the successor lists it.
    pub link_type: String,
    /// The link's lag in working days.
    pub lag: i32,
}

/// The view of a `SuccessorEntry`.
pub struct SuccessorEntryView {
    pub id: Seq<char>,
    pub link_type: Seq<char>,
    pub lag: int,
}

impl View for SuccessorEntry {
    type V = SuccessorEntryView;

    open spec fn view(&self) -> SuccessorEntryView {
        SuccessorEntryView { id: self.id@, link_type: self.link_type@, lag: self.lag as int }
    }
}

/// The views of a list of successor entries.
pub open spec fn successor_views(entries: Seq<SuccessorEntry>) -> Seq<SuccessorEntryView> {
    entries.map_values(|entry: SuccessorEntry| entry@)
}

/// The views of the successor lists of all tasks.
pub open spec fn successor_map_views(map: Seq<Vec<SuccessorEntry>>) -> Seq<Seq<SuccessorEntryView>> {
    map.map_values(|entries: Vec<SuccessorEntry>| successor_views(entries@))
}

/// The links that the first `upto` dependencies of `task` make to the
/// predecessor `id`, in the order listed.
pub open spec fn successors_in_task(task: TaskView, id: Seq<char>, upto: int) -> Seq<
    SuccessorEntryView,
>
    decreases upto,
{
    if upto <= 0 {
        Seq::empty()
    } else {
        let rest = successors_in_task(task, id, upto - 1);
        let dependency = task.dependencies[upto - 1];
        if dependency.id == id {
            rest.push(
                SuccessorEntryView {
                    id: task.id,
                    link_type: dependency.link_type,
                    lag: dependency.lag,
                },
            )
        } else {
            rest
        }
    }
}

/// The links that the first `upto` tasks make to the predecessor `id`.
pub open spec fn successors_upto(tasks: Seq<TaskView>, id: Seq<char>, upto: int) -> Seq<
    SuccessorEntryView,
>
    decreases upto,
{
    if upto <= 0 {
        Seq::empty()
    } else {
        successors_upto(tasks, id, upto - 1) + successors_in_task(
            tasks[upto - 1],
            id,
            tasks[upto - 1].dependencies.len() as int,
        )
    }
}

/// Every link to the predecessor `id`: one entry for each dependency on it,
/// by task and then by place in the task's list.
pub open spec fn successors_of(tasks: Seq<TaskView>, id: Seq<char>) -> Seq<SuccessorEntryView> {
    successors_upto(tasks, id, tasks.len() as int)
}

/// For each position, the links to its task.
pub open spec fn successor_map_of(tasks: Seq<TaskView>) -> Seq<Seq<SuccessorEntryView>> {
    Seq::new(tasks.len(), |i: int| successors_of(tasks, tasks[i].id))
}

/// Collects the links to the task with identifier `id`.
fn collect_successors(tasks: &[Task], id: &String) -> (r: Vec<SuccessorEntry>)
    ensures
        successor_views(r@) == successors_of(task_views(tasks@), id@),
{
    let ghost views = task_views(tasks@);
    let mut entries: Vec<SuccessorEntry> = Vec::new();
    let mut u: usize = 0;
    while u < tasks.len()
        invariant
            u <= tasks.len(),
            views == task_views(tasks@),
            successor_views(entries@) == successors_upto(views, id@, u as int),
        decreases tasks.len() - u,
    {
        let ghost done = successor_views(entries@);
        let mut k: usize = 0;
        while k < tasks[u].dependencies.len()
            invariant
                u < tasks.len(),
                views == task_views(tasks@),
                k <= tasks[u as int].dependencies.len(),
                views[u as int].dependencies.len() == tasks[u as int].dependencies.len(),
                successor_views(entries@) == done + successors_in_task(
                    views[u as int],
                    id@,
                    k as int,
                ),
            decreases tasks[u as int].dependencies.len() - k,
        {
            let dependency = &tasks[u].dependencies[k];
            if dependency.id == *id {
                let ghost earlier = successor_views(entries@);
                let entry = SuccessorEntry {
                    id: tasks[u].id.clone(),
                    link_type: dependency.link_type.clone(),
                    lag: dependency.lag,
                };
                entries.push(entry);
                assert(successor_views(entries@) =~= earlier.push(entry@));
            }
            k += 1;
        }
        u += 1;
    }
    entries
}

/// Builds the successor index: for each task, the links that other tasks'
/// dependency lists make to it.
pub fn build_successor_map(tasks: &[Task]) -> (r: Vec<Vec<SuccessorEntry>>)
    ensures
        successor_map_views(r@) == successor_map_of(task_views(tasks@)),
{
    let mut map: Vec<Vec<SuccessorEntry>> = Vec::new();
    let mut i: usize = 0;
    while i < tasks.len()
        invariant
            i <= tasks.len(),
            map.len() == i,
            forall|j: int|
                0 <= j < i ==> successor_views((#[trigger] map@[j])@) == successors_of(
                    task_views(tasks@),
                    task_views(tasks@)[j].id,
                ),
        decreases tasks.len() - i,
    {
        let entries = collect_successors(tasks, &tasks[i].id);
        map.push(entries);
        i += 1;
    }
    map
}

/// Lists that agree on identifiers and dependencies have the same links to
/// every predecessor.
pub proof fn lemma_successors_same(a: Seq<TaskView>, b: Seq<TaskView>, id: Seq<char>, upto: int)
    requires
        a.len() == b.len(),
        upto <= a.len(),
        forall|j: int|
            0 <= j < a.len() ==> (#[trigger] a[j]).id == b[j].id && a[j].dependencies
                == b[j].dependencies,
    ensures
        successors_upto(a, id, upto) == successors_upto(b, id, upto),
    decreases upto,
{
    if upto > 0 {
        lemma_successors_same(a, b, id, upto - 1);
        lemma_successors_in_task_same(
            a[upto - 1],
            b[upto - 1],
            id,
            a[upto - 1].dependencies.len() as int,
        );
    }
}

/// Tasks with the same identifier and dependencies make the same links.
pub proof fn lemma_successors_in_task_same(a: TaskView, b: TaskView, id: Seq<char>, upto: int)
    requires
        a.id == b.id,
        a.dependencies == b.dependencies,
    ensures
        successors_in_task(a, id, upto) == successors_in_task(b, id, upto),
    decreases upto,
{
    if upto > 0 {
        lemma_successors_in_task_same(a, b, id, upto - 1);
    }
}

/// Lists that agree on identifiers and dependencies have the same successor
/// index.
pub proof fn lemma_successor_map_same(a: Seq<TaskView>, b: Seq<TaskView>)
    requires
        a.len() == b.len(),
        forall|j: int|
            0 <= j < a.len() ==> (#[trigger] a[j]).id == b[j].id && a[j].dependencies
                == b[j].dependencies,
    ensures
        successor_map_of(a) == successor_map_of(b),
{
    assert(successor_map_of(a) =~= successor_map_of(b)) by {
        assert forall|i: int| 0 <= i < a.len() implies successor_map_of(a)[i] == successor_map_of(
            b,
        )[i] by {
            lemma_successors_same(a, b, a[i].id, a.len() as int);
        }
    }
}

} // verus!
