//! The project state: the task list a client edits between scheduling runs.
//!
//! Tasks are kept under their identifiers, one task per identifier, beside
//! the order in which the client listed them.

use vstd::prelude::*;

use crate::date_utils::{later_date, later_of, parse_date, parse_date_spec, Date};
use crate::graph::{find_task, find_task_index};
use crate::types::{
    copy_dependencies, copy_task, day_of, dependency_views, number_of, task_views, text_of,
    CPMResult, CPMResultView, CPMStats, CPMStatsView, Calendar, CalendarView, Dependency,
    DependencyView, Task, TaskView,
};

verus! {

/// Why an operation on the project state was refused.
#[derive(Clone, Debug, PartialEq, Eq)]
pub enum EngineError {
    /// The operation needs tasks and calendar to have been loaded first.
    NotInitialized,
    /// A scheduling run was asked for while no calendar is loaded.
    MissingCalendar,
    /// No task has the identifier given.
    UnknownTask(String),
}

/// The view of an `EngineError`.
pub enum EngineErrorView {
    NotInitialized,
    MissingCalendar,
    UnknownTask(Seq<char>),
}

impl View for EngineError {
    type V = EngineErrorView;

    open spec fn view(&self) -> EngineErrorView {
        match self {
            EngineError::NotInitialized => EngineErrorView::NotInitialized,
            EngineError::MissingCalendar => EngineErrorView::MissingCalendar,
            EngineError::UnknownTask(id) => EngineErrorView::UnknownTask(id@),
        }
    }
}

/// The message of an error.
pub open spec fn error_text(error: EngineErrorView) -> Seq<char> {
    match error {
        EngineErrorView::NotInitialized => "Engine not initialized"@,
        EngineErrorView::MissingCalendar => "Calendar not initialized"@,
        EngineErrorView::UnknownTask(id) => "Task "@ + id + " not found"@,
    }
}

impl EngineError {
    /// The message of the error, for display.
    pub fn message(&self) -> (r: String)
        ensures
            r@ == error_text(self@),
    {
        match self {
            EngineError::NotInitialized => "Engine not initialized".to_owned(),
            EngineError::MissingCalendar => "Calendar not initialized".to_owned(),
            EngineError::UnknownTask(id) => {
                let mut text = "Task ".to_owned();
                text.append(id.as_str());
                text.append(" not found");
                text
            },
        }
    }
}

/// The value of one field in a partial update.
#[derive(Clone, Debug, PartialEq, Eq)]
pub enum UpdateValue {
    /// A text.
    Text(String),
    /// A whole number.
    Integer(i64),
    /// A list of dependencies.
    Dependencies(Vec<Dependency>),
    /// Anything else: no value, a flag, a fraction, a list or a record.
    Other,
}

/// The view of an `UpdateValue`.
pub enum UpdateValueView {
    Text(Seq<char>),
    Integer(int),
    Dependencies(Seq<DependencyView>),
    Other,
}

impl View for UpdateValue {
    type V = UpdateValueView;

    open spec fn view(&self) -> UpdateValueView {
        match self {
            UpdateValue::Text(text) => UpdateValueView::Text(text@),
            UpdateValue::Integer(number) => UpdateValueView::Integer(*number as int),
            UpdateValue::Dependencies(list) => UpdateValueView::Dependencies(
                dependency_views(list@),
            ),
            UpdateValue::Other => UpdateValueView::Other,
        }
    }
}

/// One field of a partial update: the field's name as clients write it, and
/// its new value.
#[derive(Clone, Debug, PartialEq, Eq)]
pub struct FieldUpdate {
    pub key: String,
    pub value: UpdateValue,
}

/// The view of a `FieldUpdate`.
pub struct FieldUpdateView {
    pub key: Seq<char>,
    pub value: UpdateValueView,
}

impl View for FieldUpdate {
    type V = FieldUpdateView;

    open spec fn view(&self) -> FieldUpdateView {
        FieldUpdateView { key: self.key@, value: self.value@ }
    }
}

/// The views of a list of field updates.
pub open spec fn update_views(updates: Seq<FieldUpdate>) -> Seq<FieldUpdateView> {
    updates.map_values(|update: FieldUpdate| update@)
}

/// The text of a value, where it is one.
pub open spec fn as_text(value: UpdateValueView) -> Option<Seq<char>> {
    match value {
        UpdateValueView::Text(text) => Some(text),
        _ => None,
    }
}

/// The date a value stands for: a text that reads as a date.
pub open spec fn as_day(value: UpdateValueView) -> Option<int> {
    match value {
        UpdateValueView::Text(text) => day_of(parse_date_spec(text)),
        _ => None,
    }
}

/// The number a value holds, cut to 32 bits, where it is a number.
pub open spec fn as_cut_number(value: UpdateValueView) -> Option<int> {
    match value {
        UpdateValueView::Integer(number) => Some((number as i32) as int),
        _ => None,
    }
}

/// The number a value holds, where it is a number that fits 32 bits.
pub open spec fn as_fitting_number(value: UpdateValueView) -> Option<int> {
    match value {
        UpdateValueView::Integer(number) => if i32::MIN <= number <= i32::MAX {
            Some(number)
        } else {
            None
        },
        _ => None,
    }
}

/// The task after one field of a partial update has been applied.
///
/// Name, sort key, notes, constraint type, start and finish take a text and
/// are left alone by any other value; duration, progress and level take a
/// number, cut to 32 bits; remaining and baseline duration take a number
/// that fits 32 bits; parent, constraint date, actual and baseline dates and
/// WBS take a text and are cleared by any other value; dependencies take a
/// list of dependencies. A date that is not readable is no date. Fields of
/// any other name are ignored.
pub open spec fn field_applied(task: TaskView, key: Seq<char>, value: UpdateValueView) -> TaskView {
    if key == "name"@ {
        match as_text(value) {
            Some(text) => TaskView { name: text, ..task },
            None => task,
        }
    } else if key == "duration"@ {
        match as_cut_number(value) {
            Some(number) => TaskView { duration: number, ..task },
            None => task,
        }
    } else if key == "start"@ {
        match as_text(value) {
            Some(_) => TaskView { start: as_day(value), ..task },
            None => task,
        }
    } else if key == "end"@ {
        match as_text(value) {
            Some(_) => TaskView { end: as_day(value), ..task },
            None => task,
        }
    } else if key == "progress"@ {
        match as_cut_number(value) {
            Some(number) => TaskView { progress: number, ..task },
            None => task,
        }
    } else if key == "constraintType"@ {
        match as_text(value) {
            Some(text) => TaskView { constraint_type: text, ..task },
            None => task,
        }
    } else if key == "constraintDate"@ {
        TaskView { constraint_date: as_day(value), ..task }
    } else if key == "notes"@ {
        match as_text(value) {
            Some(text) => TaskView { notes: text, ..task },
            None => task,
        }
    } else if key == "parentId"@ {
        TaskView { parent_id: as_text(value), ..task }
    } else if key == "level"@ {
        match as_cut_number(value) {
            Some(number) => TaskView { level: number, ..task },
            None => task,
        }
    } else if key == "sortKey"@ {
        match as_text(value) {
            Some(text) => TaskView { sort_key: text, ..task },
            None => task,
        }
    } else if key == "dependencies"@ {
        match value {
            UpdateValueView::Dependencies(list) => TaskView { dependencies: list, ..task },
            _ => task,
        }
    } else if key == "actualStart"@ {
        TaskView { actual_start: as_text(value), ..task }
    } else if key == "actualFinish"@ {
        TaskView { actual_finish: as_text(value), ..task }
    } else if key == "remainingDuration"@ {
        match as_fitting_number(value) {
            Some(number) => TaskView { remaining_duration: Some(number), ..task },
            None => task,
        }
    } else if key == "baselineStart"@ {
        TaskView { baseline_start: as_text(value), ..task }
    } else if key == "baselineFinish"@ {
        TaskView { baseline_finish: as_text(value), ..task }
    } else if key == "baselineDuration"@ {
        match as_fitting_number(value) {
            Some(number) => TaskView { baseline_duration: Some(number), ..task },
            None => task,
        }
    } else if key == "wbs"@ {
        TaskView { wbs: as_text(value), ..task }
    } else {
        task
    }
}

/// The task after the first `upto` fields of a partial update have been
/// applied in turn.
pub open spec fn fields_applied(task: TaskView, updates: Seq<FieldUpdateView>, upto: int) -> TaskView
    decreases upto,
{
    if upto <= 0 {
        task
    } else {
        let update = updates[upto - 1];
        field_applied(fields_applied(task, updates, upto - 1), update.key, update.value)
    }
}

/// Whether a field name is `name`.
pub(crate) fn key_is(key: &String, name: &str) -> (r: bool)
    ensures
        r == (key@ == name@),
{
    *key == name.to_owned()
}

/// The text of a value, copied.
fn text_in(value: &UpdateValue) -> (r: Option<String>)
    ensures
        text_of(r) == as_text(value@),
{
    match value {
        UpdateValue::Text(text) => Some(text.clone()),
        _ => None,
    }
}

/// The date of a value.
fn day_in(value: &UpdateValue) -> (r: Option<Date>)
    ensures
        day_of(r) == as_day(value@),
{
    match value {
        UpdateValue::Text(text) => parse_date(text.as_str()),
        _ => None,
    }
}

/// The number of a value, cut to 32 bits.
fn cut_number_in(value: &UpdateValue) -> (r: Option<i32>)
    ensures
        number_of(r) == as_cut_number(value@),
{
    match value {
        UpdateValue::Integer(number) => Some(#[verifier::truncate] (*number as i32)),
        _ => None,
    }
}

/// The number of a value, where it fits 32 bits.
fn fitting_number_in(value: &UpdateValue) -> (r: Option<i32>)
    ensures
        number_of(r) == as_fitting_number(value@),
{
    match value {
        UpdateValue::Integer(number) => if *number >= i32::MIN as i64 && *number <= i32::MAX as i64 {
            Some(*number as i32)
        } else {
            None
        },
        _ => None,
    }
}

/// Applies one field of a partial update to a task.
pub fn apply_field(task: &mut Task, update: &FieldUpdate)
    ensures
        final(task)@ == field_applied(old(task)@, update.key@, update.value@),
{
    let key = &update.key;
    let value = &update.value;
    if key_is(key, "name") {
        if let Some(text) = text_in(value) {
            task.name = text;
        }
    } else if key_is(key, "duration") {
        if let Some(number) = cut_number_in(value) {
            task.duration = number;
        }
    } else if key_is(key, "start") {
        if text_in(value).is_some() {
            task.start = day_in(value);
        }
    } else if key_is(key, "end") {
        if text_in(value).is_some() {
            task.end = day_in(value);
        }
    } else if key_is(key, "progress") {
        if let Some(number) = cut_number_in(value) {
            task.progress = number;
        }
    } else if key_is(key, "constraintType") {
        if let Some(text) = text_in(value) {
            task.constraint_type = text;
        }
    } else if key_is(key, "constraintDate") {
        task.constraint_date = day_in(value);
    } else if key_is(key, "notes") {
        if let Some(text) = text_in(value) {
            task.notes = text;
        }
    } else if key_is(key, "parentId") {
        task.parent_id = text_in(value);
    } else if key_is(key, "level") {
        if let Some(number) = cut_number_in(value) {
            task.level = number;
        }
    } else if key_is(key, "sortKey") {
        if let Some(text) = text_in(value) {
            task.sort_key = text;
        }
    } else if key_is(key, "dependencies") {
        if let UpdateValue::Dependencies(list) = value {
            task.dependencies = copy_dependencies(list);
        }
    } else if key_is(key, "actualStart") {
        task.actual_start = text_in(value);
    } else if key_is(key, "actualFinish") {
        task.actual_finish = text_in(value);
    } else if key_is(key, "remainingDuration") {
        if let Some(number) = fitting_number_in(value) {
            task.remaining_duration = Some(number);
        }
    } else if key_is(key, "baselineStart") {
        task.baseline_start = text_in(value);
    } else if key_is(key, "baselineFinish") {
        task.baseline_finish = text_in(value);
    } else if key_is(key, "baselineDuration") {
        if let Some(number) = fitting_number_in(value) {
            task.baseline_duration = Some(number);
        }
    } else if key_is(key, "wbs") {
        task.wbs = text_in(value);
    }
}

/// Applies the fields of a partial update to a task, in the order given.
pub fn apply_fields(task: &mut Task, updates: &Vec<FieldUpdate>)
    ensures
        final(task)@ == fields_applied(old(task)@, update_views(updates@), updates.len() as int),
{
    let mut i: usize = 0;
    while i < updates.len()
        invariant
            i <= updates.len(),
            task@ == fields_applied(old(task)@, update_views(updates@), i as int),
        decreases updates.len() - i,
    {
        apply_field(task, &updates[i]);
        i += 1;
    }
}

/// The state of a project between scheduling runs.
#[derive(Clone, Debug, PartialEq, Eq)]
pub struct ProjectState {
    /// The tasks, one under each identifier.
    pub tasks: Vec<Task>,
    /// The identifiers in the order the client listed the tasks.
    pub task_order: Vec<String>,
    /// The calendar, once loaded.
    pub calendar: Option<Calendar>,
    /// Whether tasks and calendar have been loaded.
    pub initialized: bool,
}

/// The view of a `ProjectState`.
pub struct ProjectStateView {
    pub tasks: Seq<TaskView>,
    pub task_order: Seq<Seq<char>>,
    pub calendar: Option<CalendarView>,
    pub initialized: bool,
}

/// The texts of a list of identifiers.
pub open spec fn id_texts(ids: Seq<String>) -> Seq<Seq<char>> {
    ids.map_values(|id: String| id@)
}

/// The view of an optional calendar.
pub open spec fn calendar_of(calendar: Option<Calendar>) -> Option<CalendarView> {
    match calendar {
        Some(loaded) => Some(loaded@),
        None => None,
    }
}

impl View for ProjectState {
    type V = ProjectStateView;

    open spec fn view(&self) -> ProjectStateView {
        ProjectStateView {
            tasks: task_views(self.tasks@),
            task_order: id_texts(self.task_order@),
            calendar: calendar_of(self.calendar),
            initialized: self.initialized,
        }
    }
}

/// The tasks after `task` has been filed under its identifier: in place of
/// the task that had the identifier, or at the end where none had it.
pub open spec fn filed(tasks: Seq<TaskView>, task: TaskView) -> Seq<TaskView> {
    match find_task(tasks, task.id) {
        Some(place) => tasks.update(place, task),
        None => tasks.push(task),
    }
}

/// The tasks after the first `upto` of `list` have been filed in turn.
pub open spec fn all_filed(list: Seq<TaskView>, upto: int) -> Seq<TaskView>
    decreases upto,
{
    if upto <= 0 {
        Seq::empty()
    } else {
        filed(all_filed(list, upto - 1), list[upto - 1])
    }
}

/// The identifiers of the first `upto` tasks of a list.
pub open spec fn ids_of(list: Seq<TaskView>, upto: int) -> Seq<Seq<char>>
    decreases upto,
{
    if upto <= 0 {
        Seq::empty()
    } else {
        ids_of(list, upto - 1).push(list[upto - 1].id)
    }
}

/// The first `upto` identifiers of an order without those equal to `id`.
pub open spec fn order_without(order: Seq<Seq<char>>, id: Seq<char>, upto: int) -> Seq<Seq<char>>
    decreases upto,
{
    if upto <= 0 {
        Seq::empty()
    } else if order[upto - 1] == id {
        order_without(order, id, upto - 1)
    } else {
        order_without(order, id, upto - 1).push(order[upto - 1])
    }
}

/// The tasks filed under the first `upto` identifiers of an order, in that
/// order; an identifier under which no task is filed is passed over.
pub open spec fn in_order(tasks: Seq<TaskView>, order: Seq<Seq<char>>, upto: int) -> Seq<TaskView>
    decreases upto,
{
    if upto <= 0 {
        Seq::empty()
    } else {
        match find_task(tasks, order[upto - 1]) {
            Some(place) => in_order(tasks, order, upto - 1).push(tasks[place]),
            None => in_order(tasks, order, upto - 1),
        }
    }
}

/// The latest finish among the first `upto` tasks.
pub open spec fn latest_end(tasks: Seq<TaskView>, upto: int) -> Option<int>
    decreases upto,
{
    if upto <= 0 {
        None
    } else {
        later_of(latest_end(tasks, upto - 1), tasks[upto - 1].end)
    }
}

/// The note that a result carries when the tasks were handed through
/// without a scheduling run.
pub open spec fn passthrough_note() -> Seq<char> {
    "Rust CPM not yet implemented - using passthrough"@
}

/// Whether an order lists the identifier `id`.
fn order_lists(order: &Vec<String>, id: &String) -> (r: bool)
    ensures
        r == id_texts(order@).contains(id@),
{
    let mut i: usize = 0;
    while i < order.len()
        invariant
            i <= order.len(),
            forall|j: int| 0 <= j < i ==> id_texts(order@)[j] != id@,
        decreases order.len() - i,
    {
        if order[i] == *id {
            assert(id_texts(order@)[i as int] == id@);
            return true;
        }
        i += 1;
    }
    false
}

/// Files a task under its identifier.
fn file_task(tasks: &mut Vec<Task>, task: Task)
    ensures
        task_views(final(tasks)@) == filed(task_views(old(tasks)@), task@),
{
    match find_task_index(tasks.as_slice(), &task.id) {
        Some(place) => {
            tasks[place] = task;
        },
        None => {
            tasks.push(task);
        },
    }
}

impl ProjectState {
    /// A state without tasks and calendar.
    pub fn new() -> (r: ProjectState)
        ensures
            r@ == (ProjectStateView {
                tasks: Seq::empty(),
                task_order: Seq::empty(),
                calendar: None,
                initialized: false,
            }),
    {
        let state = ProjectState {
            tasks: Vec::new(),
            task_order: Vec::new(),
            calendar: None,
            initialized: false,
        };
        assert(state@.tasks =~= Seq::empty());
        assert(state@.task_order =~= Seq::empty());
        state
    }

    /// Replaces the tasks by those given: they are listed in the order
    /// given and filed under their identifiers, a later task taking the
    /// place of an earlier one with the same identifier.
    pub fn load_tasks(&mut self, tasks: Vec<Task>)
        ensures
            final(self)@ == (ProjectStateView {
                tasks: all_filed(task_views(tasks@), tasks.len() as int),
                task_order: ids_of(task_views(tasks@), tasks.len() as int),
                ..old(self)@
            }),
    {
        let mut order: Vec<String> = Vec::new();
        let mut entries: Vec<Task> = Vec::new();
        let mut i: usize = 0;
        while i < tasks.len()
            invariant
                i <= tasks.len(),
                id_texts(order@) == ids_of(task_views(tasks@), i as int),
                task_views(entries@) == all_filed(task_views(tasks@), i as int),
            decreases tasks.len() - i,
        {
            order.push(tasks[i].id.clone());
            file_task(&mut entries, copy_task(&tasks[i]));
            i += 1;
        }
        self.task_order = order;
        self.tasks = entries;
    }

    /// Applies a partial update to the task filed under `id`.
    pub fn update_task(&mut self, id: &str, updates: &Vec<FieldUpdate>) -> (r: Result<
        (),
        EngineError,
    >)
        ensures
            match find_task(old(self)@.tasks, id@) {
                Some(place) => r is Ok && final(self)@ == (ProjectStateView {
                    tasks: old(self)@.tasks.update(
                        place,
                        fields_applied(
                            old(self)@.tasks[place],
                            update_views(updates@),
                            updates.len() as int,
                        ),
                    ),
                    ..old(self)@
                }),
                None => r is Err && r->Err_0@ == EngineErrorView::UnknownTask(id@) && final(self)@
                    == old(self)@,
            },
    {
        let key = id.to_owned();
        match find_task_index(self.tasks.as_slice(), &key) {
            Some(place) => {
                apply_fields(&mut self.tasks[place], updates);
                assert(task_views(self.tasks@) =~= task_views(old(self).tasks@).update(
                    place as int,
                    self.tasks@[place as int]@,
                ));
                Ok(())
            },
            None => Err(EngineError::UnknownTask(key)),
        }
    }

    /// Files a task under its identifier, and lists the identifier last
    /// where it is not listed yet.
    pub fn add_task(&mut self, task: Task)
        ensures
            final(self)@ == (ProjectStateView {
                tasks: filed(old(self)@.tasks, task@),
                task_order: if old(self)@.task_order.contains(task@.id) {
                    old(self)@.task_order
                } else {
                    old(self)@.task_order.push(task@.id)
                },
                ..old(self)@
            }),
    {
        let id = task.id.clone();
        file_task(&mut self.tasks, task);
        if !order_lists(&self.task_order, &id) {
            let ghost listed = id_texts(self.task_order@);
            self.task_order.push(id);
            assert(id_texts(self.task_order@) =~= listed.push(id@));
        }
    }

    /// Removes the task filed under `task_id`, and the identifier from the
    /// order.
    pub fn delete_task(&mut self, task_id: &str) -> (r: Result<(), EngineError>)
        ensures
            match find_task(old(self)@.tasks, task_id@) {
                Some(place) => r is Ok && final(self)@ == (ProjectStateView {
                    tasks: old(self)@.tasks.remove(place),
                    task_order: order_without(
                        old(self)@.task_order,
                        task_id@,
                        old(self)@.task_order.len() as int,
                    ),
                    ..old(self)@
                }),
                None => r is Err && r->Err_0@ == EngineErrorView::UnknownTask(task_id@)
                    && final(self)@ == old(self)@,
            },
    {
        let key = task_id.to_owned();
        match find_task_index(self.tasks.as_slice(), &key) {
            Some(place) => {
                self.tasks.remove(place);
                assert(task_views(self.tasks@) =~= task_views(old(self).tasks@).remove(
                    place as int,
                ));
                let mut kept: Vec<String> = Vec::new();
                let mut i: usize = 0;
                while i < self.task_order.len()
                    invariant
                        i <= self.task_order.len(),
                        key@ == task_id@,
                        self.task_order == old(self).task_order,
                        id_texts(kept@) == order_without(
                            id_texts(self.task_order@),
                            task_id@,
                            i as int,
                        ),
                    decreases self.task_order.len() - i,
                {
                    if self.task_order[i] != key {
                        kept.push(self.task_order[i].clone());
                    }
                    i += 1;
                }
                self.task_order = kept;
                Ok(())
            },
            None => Err(EngineError::UnknownTask(key)),
        }
    }

    /// Copies of the tasks in the order listed.
    pub fn get_tasks_ordered(&self) -> (r: Vec<Task>)
        ensures
            task_views(r@) == in_order(
                self@.tasks,
                self@.task_order,
                self@.task_order.len() as int,
            ),
    {
        let mut ordered: Vec<Task> = Vec::new();
        let mut i: usize = 0;
        while i < self.task_order.len()
            invariant
                i <= self.task_order.len(),
                task_views(ordered@) == in_order(self@.tasks, self@.task_order, i as int),
            decreases self.task_order.len() - i,
        {
            match find_task_index(self.tasks.as_slice(), &self.task_order[i]) {
                Some(place) => {
                    ordered.push(copy_task(&self.tasks[place]));
                },
                None => {},
            }
            i += 1;
        }
        ordered
    }

    /// The number of tasks filed.
    pub fn task_count(&self) -> (r: usize)
        ensures
            r == self@.tasks.len(),
    {
        self.tasks.len()
    }

    /// Drops tasks and calendar.
    pub fn clear(&mut self)
        ensures
            final(self)@ == (ProjectStateView {
                tasks: Seq::empty(),
                task_order: Seq::empty(),
                calendar: None,
                initialized: false,
            }),
    {
        self.tasks.clear();
        self.task_order.clear();
        self.calendar = None;
        self.initialized = false;
        assert(self@.tasks =~= Seq::empty());
        assert(self@.task_order =~= Seq::empty());
    }

    /// The tasks as they are, in the order listed, with the figures of a
    /// list that was not scheduled: the number of tasks, the latest finish
    /// among them, and a note that says so.
    pub fn create_passthrough_result(&self) -> (r: CPMResult)
        requires
            self.task_order.len() <= i32::MAX,
        ensures
            ({
                let tasks = in_order(
                    self@.tasks,
                    self@.task_order,
                    self@.task_order.len() as int,
                );
                r@ == (CPMResultView {
                    tasks,
                    stats: CPMStatsView {
                        task_count: tasks.len() as int,
                        critical_count: 0,
                        project_end: latest_end(tasks, tasks.len() as int),
                        duration: 0,
                        error: Some(passthrough_note()),
                    },
                })
            }),
    {
        let tasks = self.get_tasks_ordered();
        proof {
            lemma_in_order_length(self@.tasks, self@.task_order, self@.task_order.len() as int);
        }
        let mut project_end: Option<Date> = None;
        let mut i: usize = 0;
        while i < tasks.len()
            invariant
                i <= tasks.len(),
                day_of(project_end) == latest_end(task_views(tasks@), i as int),
            decreases tasks.len() - i,
        {
            project_end = later_date(project_end, tasks[i].end);
            i += 1;
        }
        let stats = CPMStats {
            task_count: tasks.len() as i32,
            critical_count: 0,
            project_end,
            duration: 0,
            error: Some("Rust CPM not yet implemented - using passthrough".to_owned()),
        };
        CPMResult { tasks, stats }
    }
}

/// No more tasks are found under an order's identifiers than it lists.
pub proof fn lemma_in_order_length(tasks: Seq<TaskView>, order: Seq<Seq<char>>, upto: int)
    requires
        0 <= upto,
    ensures
        in_order(tasks, order, upto).len() <= upto,
    decreases upto,
{
    if upto > 0 {
        lemma_in_order_length(tasks, order, upto - 1);
    }
}

} // verus!
