//! The scheduler engine: a task list and a calendar behind the operations a
//! client calls, from loading them to a scheduling run.

use vstd::prelude::*;

use crate::cpm::{calculate_on, calculate_spec};
use crate::date_utils::{today_date, Date};
use crate::engine_state::{
    apply_field, as_text, calendar_of, field_applied, key_is, update_views, EngineError,
    EngineErrorView, FieldUpdate, FieldUpdateView, UpdateValue, UpdateValueView,
};
use crate::graph::{find_task, find_task_index};
use crate::types::{
    copy_task, copy_tasks, day_of, task_views, CPMResult, Calendar, CalendarView, Task, TaskView,
};

verus! {

/// The scheduler engine.
#[derive(Clone, Debug)]
pub struct SchedulerEngine {
    tasks: Vec<Task>,
    calendar: Option<Calendar>,
    initialized: bool,
}

/// The view of a `SchedulerEngine`.
pub struct SchedulerEngineView {
    pub tasks: Seq<TaskView>,
    pub calendar: Option<CalendarView>,
    pub initialized: bool,
}

impl View for SchedulerEngine {
    type V = SchedulerEngineView;

    closed spec fn view(&self) -> SchedulerEngineView {
        SchedulerEngineView {
            tasks: task_views(self.tasks@),
            calendar: calendar_of(self.calendar),
            initialized: self.initialized,
        }
    }
}

/// Whether the engine applies updates to the field named `key`.
pub open spec fn is_engine_field(key: Seq<char>) -> bool {
    key == "name"@ || key == "duration"@ || key == "start"@ || key == "end"@ || key
        == "constraintType"@ || key == "constraintDate"@ || key == "progress"@ || key == "notes"@
        || key == "parentId"@ || key == "sortKey"@
}

/// The task after the engine has applied one field of a partial update: the
/// scheduling mode takes a text, the other fields the engine knows are
/// applied as `field_applied` says, and any other field is ignored.
pub open spec fn engine_field_applied(
    task: TaskView,
    key: Seq<char>,
    value: UpdateValueView,
) -> TaskView {
    if key == "schedulingMode"@ {
        match as_text(value) {
            Some(text) => TaskView { scheduling_mode: text, ..task },
            None => task,
        }
    } else if is_engine_field(key) {
        field_applied(task, key, value)
    } else {
        task
    }
}

/// The task after the engine has applied the first `upto` fields of a
/// partial update in turn.
pub open spec fn engine_fields_applied(
    task: TaskView,
    updates: Seq<FieldUpdateView>,
    upto: int,
) -> TaskView
    decreases upto,
{
    if upto <= 0 {
        task
    } else {
        let update = updates[upto - 1];
        engine_field_applied(
            engine_fields_applied(task, updates, upto - 1),
            update.key,
            update.value,
        )
    }
}

/// The first `upto` tasks without those that have the identifier `id`.
pub open spec fn tasks_without(tasks: Seq<TaskView>, id: Seq<char>, upto: int) -> Seq<TaskView>
    decreases upto,
{
    if upto <= 0 {
        Seq::empty()
    } else if tasks[upto - 1].id == id {
        tasks_without(tasks, id, upto - 1)
    } else {
        tasks_without(tasks, id, upto - 1).push(tasks[upto - 1])
    }
}

/// Whether the engine applies updates to the field named `key`.
fn engine_knows(key: &String) -> (r: bool)
    ensures
        r == is_engine_field(key@),
{
    key_is(key, "name") || key_is(key, "duration") || key_is(key, "start") || key_is(key, "end")
        || key_is(key, "constraintType") || key_is(key, "constraintDate") || key_is(
        key,
        "progress",
    ) || key_is(key, "notes") || key_is(key, "parentId") || key_is(key, "sortKey")
}

/// Applies the fields of a partial update that the engine knows.
fn apply_engine_fields(task: &mut Task, updates: &Vec<FieldUpdate>)
    ensures
        final(task)@ == engine_fields_applied(
            old(task)@,
            update_views(updates@),
            updates.len() as int,
        ),
{
    let mut i: usize = 0;
    while i < updates.len()
        invariant
            i <= updates.len(),
            task@ == engine_fields_applied(old(task)@, update_views(updates@), i as int),
        decreases updates.len() - i,
    {
        let update = &updates[i];
        if key_is(&update.key, "schedulingMode") {
            if let UpdateValue::Text(text) = &update.value {
                task.scheduling_mode = text.clone();
            }
        } else if engine_knows(&update.key) {
            apply_field(task, update);
        }
        i += 1;
    }
}

impl SchedulerEngine {
    /// An engine without tasks and calendar.
    pub fn new() -> (r: SchedulerEngine)
        ensures
            r@ == (SchedulerEngineView { tasks: Seq::empty(), calendar: None, initialized: false }),
    {
        let engine = SchedulerEngine { tasks: Vec::new(), calendar: None, initialized: false };
        assert(engine@.tasks =~= Seq::empty());
        engine
    }

    /// Loads tasks and calendar and marks the engine initialized.
    pub fn initialize(&mut self, tasks: Vec<Task>, calendar: Calendar)
        ensures
            final(self)@ == (SchedulerEngineView {
                tasks: task_views(tasks@),
                calendar: Some(calendar@),
                initialized: true,
            }),
    {
        self.tasks = tasks;
        self.calendar = Some(calendar);
        self.initialized = true;
    }

    /// Adds a task at the end of the list. Refused before the engine is
    /// initialized.
    pub fn add_task(&mut self, task: Task) -> (r: Result<(), EngineError>)
        ensures
            !old(self)@.initialized ==> r is Err && r->Err_0@ == EngineErrorView::NotInitialized
                && final(self)@ == old(self)@,
            old(self)@.initialized ==> r is Ok && final(self)@ == (SchedulerEngineView {
                tasks: old(self)@.tasks.push(task@),
                ..old(self)@
            }),
    {
        if !self.initialized {
            return Err(EngineError::NotInitialized);
        }
        self.tasks.push(task);
        assert(task_views(self.tasks@) =~= task_views(old(self).tasks@).push(task@));
        Ok(())
    }

    /// Applies a partial update to the first task with the identifier
    /// `task_id`. Refused before the engine is initialized, and where no
    /// task has the identifier.
    pub fn update_task(&mut self, task_id: &str, updates: &Vec<FieldUpdate>) -> (r: Result<
        (),
        EngineError,
    >)
        ensures
            !old(self)@.initialized ==> r is Err && r->Err_0@ == EngineErrorView::NotInitialized
                && final(self)@ == old(self)@,
            old(self)@.initialized ==> match find_task(old(self)@.tasks, task_id@) {
                Some(place) => r is Ok && final(self)@ == (SchedulerEngineView {
                    tasks: old(self)@.tasks.update(
                        place,
                        engine_fields_applied(
                            old(self)@.tasks[place],
                            update_views(updates@),
                            updates.len() as int,
                        ),
                    ),
                    ..old(self)@
                }),
                None => r is Err && r->Err_0@ == EngineErrorView::UnknownTask(task_id@)
                    && final(self)@ == old(self)@,
            },
    {
        if !self.initialized {
            return Err(EngineError::NotInitialized);
        }
        let key = task_id.to_owned();
        match find_task_index(self.tasks.as_slice(), &key) {
            Some(place) => {
                apply_engine_fields(&mut self.tasks[place], updates);
                assert(task_views(self.tasks@) =~= task_views(old(self).tasks@).update(
                    place as int,
                    self.tasks@[place as int]@,
                ));
                Ok(())
            },
            None => Err(EngineError::UnknownTask(key)),
        }
    }

    /// Removes every task with the identifier `task_id`. Refused before the
    /// engine is initialized, and where no task has the identifier.
    pub fn delete_task(&mut self, task_id: &str) -> (r: Result<(), EngineError>)
        ensures
            !old(self)@.initialized ==> r is Err && r->Err_0@ == EngineErrorView::NotInitialized
                && final(self)@ == old(self)@,
            old(self)@.initialized ==> match find_task(old(self)@.tasks, task_id@) {
                Some(_) => r is Ok && final(self)@ == (SchedulerEngineView {
                    tasks: tasks_without(
                        old(self)@.tasks,
                        task_id@,
                        old(self)@.tasks.len() as int,
                    ),
                    ..old(self)@
                }),
                None => r is Err && r->Err_0@ == EngineErrorView::UnknownTask(task_id@)
                    && final(self)@ == old(self)@,
            },
    {
        if !self.initialized {
            return Err(EngineError::NotInitialized);
        }
        let key = task_id.to_owned();
        if find_task_index(self.tasks.as_slice(), &key).is_none() {
            return Err(EngineError::UnknownTask(key));
        }
        let mut kept: Vec<Task> = Vec::new();
        let mut i: usize = 0;
        while i < self.tasks.len()
            invariant
                i <= self.tasks.len(),
                key@ == task_id@,
                self.tasks == old(self).tasks,
                task_views(kept@) == tasks_without(task_views(self.tasks@), task_id@, i as int),
            decreases self.tasks.len() - i,
        {
            if self.tasks[i].id != key {
                kept.push(copy_task(&self.tasks[i]));
            }
            i += 1;
        }
        self.tasks = kept;
        Ok(())
    }

    /// Replaces all tasks by those given.
    pub fn sync_tasks(&mut self, tasks: Vec<Task>)
        ensures
            final(self)@ == (SchedulerEngineView { tasks: task_views(tasks@), ..old(self)@ }),
    {
        self.tasks = tasks;
    }

    /// Replaces the calendar.
    pub fn update_calendar(&mut self, calendar: Calendar)
        ensures
            final(self)@ == (SchedulerEngineView { calendar: Some(calendar@), ..old(self)@ }),
    {
        self.calendar = Some(calendar);
    }

    /// Schedules the tasks in place, with `today` as the start of any task
    /// that nothing else gives a start. Refused before the engine is
    /// initialized, and while no calendar is loaded.
    pub fn calculate_on(&mut self, today: Option<Date>) -> (r: Result<CPMResult, EngineError>)
        requires
            old(self)@.tasks.len() <= i32::MAX,
        ensures
            !old(self)@.initialized ==> r is Err && r->Err_0@ == EngineErrorView::NotInitialized
                && final(self)@ == old(self)@,
            old(self)@.initialized && old(self)@.calendar is None ==> r is Err && r->Err_0@
                == EngineErrorView::MissingCalendar && final(self)@ == old(self)@,
            old(self)@.initialized && old(self)@.calendar is Some ==> r is Ok && r->Ok_0@
                == calculate_spec(old(self)@.tasks, old(self)@.calendar->0, day_of(today))
                && final(self)@ == (SchedulerEngineView { tasks: r->Ok_0@.tasks, ..old(self)@ }),
    {
        if !self.initialized {
            return Err(EngineError::NotInitialized);
        }
        match &self.calendar {
            Some(calendar) => Ok(calculate_on(self.tasks.as_mut_slice(), calendar, today)),
            None => Err(EngineError::MissingCalendar),
        }
    }

    /// Schedules the tasks in place. A task that nothing else gives a start
    /// begins on the day the system clock shows. Refused before the engine
    /// is initialized, and while no calendar is loaded.
    pub fn calculate(&mut self) -> (r: Result<CPMResult, EngineError>)
        requires
            old(self)@.tasks.len() <= i32::MAX,
        ensures
            !old(self)@.initialized ==> r is Err && r->Err_0@ == EngineErrorView::NotInitialized
                && final(self)@ == old(self)@,
            old(self)@.initialized && old(self)@.calendar is None ==> r is Err && r->Err_0@
                == EngineErrorView::MissingCalendar && final(self)@ == old(self)@,
            old(self)@.initialized && old(self)@.calendar is Some ==> r is Ok && (exists|
                today: Option<int>,
            |
                r->Ok_0@ == calculate_spec(old(self)@.tasks, old(self)@.calendar->0, today))
                && final(self)@ == (SchedulerEngineView { tasks: r->Ok_0@.tasks, ..old(self)@ }),
    {
        let now = today_date();
        self.calculate_on(now)
    }

    /// The number of tasks.
    pub fn task_count(&self) -> (r: usize)
        ensures
            r == self@.tasks.len(),
    {
        self.tasks.len()
    }

    /// Whether tasks and calendar have been loaded.
    pub fn is_initialized(&self) -> (r: bool)
        ensures
            r == self@.initialized,
    {
        self.initialized
    }

    /// Copies of the tasks.
    pub fn get_tasks(&self) -> (r: Vec<Task>)
        ensures
            task_views(r@) == self@.tasks,
    {
        copy_tasks(self.tasks.as_slice())
    }

    /// Drops tasks and calendar and marks the engine uninitialized.
    pub fn dispose(&mut self)
        ensures
            final(self)@ == (SchedulerEngineView {
                tasks: Seq::empty(),
                calendar: None,
                initialized: false,
            }),
    {
        self.tasks.clear();
        self.calendar = None;
        self.initialized = false;
        assert(self@.tasks =~= Seq::empty());
    }
}

} // verus!
