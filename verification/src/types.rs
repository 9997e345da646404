//! The records that the scheduling passes read and write, and their
//! mathematical views.
//!
//! In a view a text is a `Seq<char>`, a number an `int` and a date its day
//! number. Contracts across the crate speak of views only.

use vstd::prelude::*;

use crate::date_utils::Date;

verus! {

/// The text of an optional string.
pub open spec fn text_of(value: Option<String>) -> Option<Seq<char>> {
    match value {
        Some(text) => Some(text@),
        None => None,
    }
}

/// The day number of an optional date.
pub open spec fn day_of(value: Option<Date>) -> Option<int> {
    match value {
        Some(date) => Some(date.day as int),
        None => None,
    }
}

/// The value of an optional number.
pub open spec fn number_of(value: Option<i32>) -> Option<int> {
    match value {
        Some(number) => Some(number as int),
        None => None,
    }
}

/// The texts of an optional list of strings.
pub open spec fn texts_of(value: Option<Vec<String>>) -> Option<Seq<Seq<char>>> {
    match value {
        Some(list) => Some(list@.map_values(|text: String| text@)),
        None => None,
    }
}

/// A precedence link from a predecessor to the task that lists it.
#[derive(Clone, Debug, PartialEq, Eq)]
pub struct Dependency {
    /// Identifier of the predecessor.
    pub id: String,
    /// `"FS"`, `"SS"`, `"FF"` or `"SF"`; anything else is read as `"FS"`.
    pub link_type: String,
    /// Lag in working days; may be negative.
    pub lag: i32,
}

/// The view of a `Dependency`.
pub struct DependencyView {
    pub id: Seq<char>,
    pub link_type: Seq<char>,
    pub lag: int,
}

impl View for Dependency {
    type V = DependencyView;

    open spec fn view(&self) -> DependencyView {
        DependencyView { id: self.id@, link_type: self.link_type@, lag: self.lag as int }
    }
}

/// The views of a list of dependencies.
pub open spec fn dependency_views(list: Seq<Dependency>) -> Seq<DependencyView> {
    list.map_values(|dependency: Dependency| dependency@)
}

/// A task: the atomic record of a schedule.
///
/// `start`, `end`, `duration` and the calculated fields are written by the
/// scheduling passes. Identity, hierarchy and every other field are carried
/// through untouched.
#[derive(Clone, Debug, PartialEq, Eq)]
pub struct Task {
    pub id: String,
    pub name: String,
    pub parent_id: Option<String>,
    pub sort_key: String,
    /// `"task"` when absent; `"blank"` marks a spacer row.
    pub row_type: Option<String>,
    /// Hierarchy level, 0 for a root. Informational.
    pub level: i32,
    /// Early start; `None` while unknown.
    pub start: Option<Date>,
    /// Early finish; `None` while unknown.
    pub end: Option<Date>,
    /// Working days; 0 marks a milestone.
    pub duration: i32,
    /// `asap`, `snet`, `snlt`, `fnet`, `fnlt` or `mfo`, in any case; anything
    /// else is read as `asap`.
    pub constraint_type: String,
    pub constraint_date: Option<Date>,
    /// `"Auto"` or `"Manual"`.
    pub scheduling_mode: String,
    pub dependencies: Vec<Dependency>,
    pub progress: i32,
    pub notes: String,
    pub is_critical: Option<bool>,
    pub late_start: Option<Date>,
    pub late_finish: Option<Date>,
    /// Total float in working days.
    pub total_float_days: Option<i32>,
    /// Free float in working days.
    pub free_float_days: Option<i32>,
    pub collapsed: Option<bool>,
    pub actual_start: Option<String>,
    pub actual_finish: Option<String>,
    pub remaining_duration: Option<i32>,
    pub baseline_start: Option<String>,
    pub baseline_finish: Option<String>,
    pub baseline_duration: Option<i32>,
    pub wbs: Option<String>,
    pub trade_partner_ids: Option<Vec<String>>,
}

/// The view of a `Task`.
pub struct TaskView {
    pub id: Seq<char>,
    pub name: Seq<char>,
    pub parent_id: Option<Seq<char>>,
    pub sort_key: Seq<char>,
    pub row_type: Option<Seq<char>>,
    pub level: int,
    pub start: Option<int>,
    pub end: Option<int>,
    pub duration: int,
    pub constraint_type: Seq<char>,
    pub constraint_date: Option<int>,
    pub scheduling_mode: Seq<char>,
    pub dependencies: Seq<DependencyView>,
    pub progress: int,
    pub notes: Seq<char>,
    pub is_critical: Option<bool>,
    pub late_start: Option<int>,
    pub late_finish: Option<int>,
    pub total_float_days: Option<int>,
    pub free_float_days: Option<int>,
    pub collapsed: Option<bool>,
    pub actual_start: Option<Seq<char>>,
    pub actual_finish: Option<Seq<char>>,
    pub remaining_duration: Option<int>,
    pub baseline_start: Option<Seq<char>>,
    pub baseline_finish: Option<Seq<char>>,
    pub baseline_duration: Option<int>,
    pub wbs: Option<Seq<char>>,
    pub trade_partner_ids: Option<Seq<Seq<char>>>,
}

impl View for Task {
    type V = TaskView;

    open spec fn view(&self) -> TaskView {
        TaskView {
            id: self.id@,
            name: self.name@,
            parent_id: text_of(self.parent_id),
            sort_key: self.sort_key@,
            row_type: text_of(self.row_type),
            level: self.level as int,
            start: day_of(self.start),
            end: day_of(self.end),
            duration: self.duration as int,
            constraint_type: self.constraint_type@,
            constraint_date: day_of(self.constraint_date),
            scheduling_mode: self.scheduling_mode@,
            dependencies: dependency_views(self.dependencies@),
            progress: self.progress as int,
            notes: self.notes@,
            is_critical: self.is_critical,
            late_start: day_of(self.late_start),
            late_finish: day_of(self.late_finish),
            total_float_days: number_of(self.total_float_days),
            free_float_days: number_of(self.free_float_days),
            collapsed: self.collapsed,
            actual_start: text_of(self.actual_start),
            actual_finish: text_of(self.actual_finish),
            remaining_duration: number_of(self.remaining_duration),
            baseline_start: text_of(self.baseline_start),
            baseline_finish: text_of(self.baseline_finish),
            baseline_duration: number_of(self.baseline_duration),
            wbs: text_of(self.wbs),
            trade_partner_ids: texts_of(self.trade_partner_ids),
        }
    }
}

/// The views of a list of tasks.
pub open spec fn task_views(tasks: Seq<Task>) -> Seq<TaskView> {
    tasks.map_values(|task: Task| task@)
}

/// One entry of a calendar's exception table.
#[derive(Clone, Debug, PartialEq, Eq)]
pub struct CalendarException {
    /// The date the entry is filed under, as `YYYY-MM-DD`.
    pub date: String,
    /// The entry's explicit flag; `None` for an entry that carries none,
    /// such as a plain holiday name.
    pub working: Option<bool>,
}

/// The view of a `CalendarException`.
pub struct CalendarExceptionView {
    pub date: Seq<char>,
    pub working: Option<bool>,
}

impl View for CalendarException {
    type V = CalendarExceptionView;

    open spec fn view(&self) -> CalendarExceptionView {
        CalendarExceptionView { date: self.date@, working: self.working }
    }
}

/// The views of a list of exceptions.
pub open spec fn exception_views(exceptions: Seq<CalendarException>) -> Seq<CalendarExceptionView> {
    exceptions.map_values(|exception: CalendarException| exception@)
}

/// The values of a list of weekday indices.
pub open spec fn weekday_values(days: Seq<i32>) -> Seq<int> {
    days.map_values(|day: i32| day as int)
}

/// The project calendar: the weekdays worked, and dated exceptions to them.
#[derive(Clone, Debug, PartialEq, Eq)]
pub struct Calendar {
    /// Weekday indices that are worked, Sunday = 0 through Saturday = 6.
    pub working_days: Vec<i32>,
    /// Dated exceptions; the first entry filed under a date decides it.
    pub exceptions: Vec<CalendarException>,
}

/// The view of a `Calendar`.
pub struct CalendarView {
    pub working_days: Seq<int>,
    pub exceptions: Seq<CalendarExceptionView>,
}

impl View for Calendar {
    type V = CalendarView;

    open spec fn view(&self) -> CalendarView {
        CalendarView {
            working_days: weekday_values(self.working_days@),
            exceptions: exception_views(self.exceptions@),
        }
    }
}

/// Figures of one scheduling run.
#[derive(Clone, Debug, PartialEq, Eq)]
pub struct CPMStats {
    /// Number of tasks scheduled.
    pub task_count: i32,
    /// Number of critical tasks that have no children.
    pub critical_count: i32,
    /// Latest early finish among the tasks that have no children.
    pub project_end: Option<Date>,
    /// Working days from the earliest start to `project_end`, both included.
    pub duration: i32,
    pub error: Option<String>,
}

/// The view of `CPMStats`.
pub struct CPMStatsView {
    pub task_count: int,
    pub critical_count: int,
    pub project_end: Option<int>,
    pub duration: int,
    pub error: Option<Seq<char>>,
}

impl View for CPMStats {
    type V = CPMStatsView;

    open spec fn view(&self) -> CPMStatsView {
        CPMStatsView {
            task_count: self.task_count as int,
            critical_count: self.critical_count as int,
            project_end: day_of(self.project_end),
            duration: self.duration as int,
            error: text_of(self.error),
        }
    }
}

/// The scheduled tasks together with the run's figures.
#[derive(Clone, Debug, PartialEq, Eq)]
pub struct CPMResult {
    pub tasks: Vec<Task>,
    pub stats: CPMStats,
}

/// The view of a `CPMResult`.
pub struct CPMResultView {
    pub tasks: Seq<TaskView>,
    pub stats: CPMStatsView,
}

impl View for CPMResult {
    type V = CPMResultView;

    open spec fn view(&self) -> CPMResultView {
        CPMResultView { tasks: task_views(self.tasks@), stats: self.stats@ }
    }
}

/// The scheduling mode of a task that names none: `"Auto"`.
pub fn default_scheduling_mode() -> (r: String)
    ensures
        r@ == "Auto"@,
{
    "Auto".to_owned()
}

/// Copies an optional text.
pub fn copy_text(value: &Option<String>) -> (r: Option<String>)
    ensures
        text_of(r) == text_of(*value),
{
    match value {
        Some(text) => Some(text.clone()),
        None => None,
    }
}

/// Copies a list of texts.
pub fn copy_texts(list: &Vec<String>) -> (r: Vec<String>)
    ensures
        r@.map_values(|text: String| text@) == list@.map_values(|text: String| text@),
{
    let mut copy: Vec<String> = Vec::new();
    let mut i: usize = 0;
    while i < list.len()
        invariant
            i <= list.len(),
            copy.len() == i,
            forall|j: int| 0 <= j < i ==> (#[trigger] copy@[j])@ == list@[j]@,
        decreases list.len() - i,
    {
        copy.push(list[i].clone());
        i += 1;
    }
    copy
}

/// Copies a list of dependencies.
pub fn copy_dependencies(list: &Vec<Dependency>) -> (r: Vec<Dependency>)
    ensures
        dependency_views(r@) == dependency_views(list@),
{
    let mut copy: Vec<Dependency> = Vec::new();
    let mut i: usize = 0;
    while i < list.len()
        invariant
            i <= list.len(),
            copy.len() == i,
            forall|j: int| 0 <= j < i ==> (#[trigger] copy@[j])@ == list@[j]@,
        decreases list.len() - i,
    {
        copy.push(
            Dependency {
                id: list[i].id.clone(),
                link_type: list[i].link_type.clone(),
                lag: list[i].lag,
            },
        );
        i += 1;
    }
    copy
}

/// Copies a task.
pub fn copy_task(task: &Task) -> (r: Task)
    ensures
        r@ == task@,
{
    Task {
        id: task.id.clone(),
        name: task.name.clone(),
        parent_id: copy_text(&task.parent_id),
        sort_key: task.sort_key.clone(),
        row_type: copy_text(&task.row_type),
        level: task.level,
        start: task.start,
        end: task.end,
        duration: task.duration,
        constraint_type: task.constraint_type.clone(),
        constraint_date: task.constraint_date,
        scheduling_mode: task.scheduling_mode.clone(),
        dependencies: copy_dependencies(&task.dependencies),
        progress: task.progress,
        notes: task.notes.clone(),
        is_critical: task.is_critical,
        late_start: task.late_start,
        late_finish: task.late_finish,
        total_float_days: task.total_float_days,
        free_float_days: task.free_float_days,
        collapsed: task.collapsed,
        actual_start: copy_text(&task.actual_start),
        actual_finish: copy_text(&task.actual_finish),
        remaining_duration: task.remaining_duration,
        baseline_start: copy_text(&task.baseline_start),
        baseline_finish: copy_text(&task.baseline_finish),
        baseline_duration: task.baseline_duration,
        wbs: copy_text(&task.wbs),
        trade_partner_ids: match &task.trade_partner_ids {
            Some(list) => Some(copy_texts(list)),
            None => None,
        },
    }
}

/// Copies a list of tasks.
pub fn copy_tasks(tasks: &[Task]) -> (r: Vec<Task>)
    ensures
        task_views(r@) == task_views(tasks@),
{
    let mut copy: Vec<Task> = Vec::new();
    let mut i: usize = 0;
    while i < tasks.len()
        invariant
            i <= tasks.len(),
            copy.len() == i,
            forall|j: int| 0 <= j < i ==> (#[trigger] copy@[j])@ == tasks@[j]@,
        decreases tasks.len() - i,
    {
        copy.push(copy_task(&tasks[i]));
        i += 1;
    }
    copy
}

/// A task with its dates and duration blanked: what the forward pass and
/// the parent rollup leave alone.
pub open spec fn without_dates(task: TaskView) -> TaskView {
    TaskView { start: None, end: None, duration: 0, ..task }
}

/// A task with its late dates blanked: what the backward pass leaves alone.
pub open spec fn without_late_dates(task: TaskView) -> TaskView {
    TaskView { late_start: None, late_finish: None, ..task }
}

/// A task with its float blanked: what float calculation leaves alone.
pub open spec fn without_float(task: TaskView) -> TaskView {
    TaskView { total_float_days: None, free_float_days: None, ..task }
}

/// A task with its critical mark blanked: what marking leaves alone.
pub open spec fn without_mark(task: TaskView) -> TaskView {
    TaskView { is_critical: None, ..task }
}

} // verus!
