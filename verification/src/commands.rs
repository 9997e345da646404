//! The operations a host offers its clients on one project state: what each
//! decides, and what it does to the state. Reading requests and writing
//! replies is the host's part.

use vstd::prelude::*;

use crate::cpm::{calculate_on, calculate_spec};
use crate::date_utils::{today_date, Date};
use crate::engine_state::{
    all_filed, fields_applied, filed, ids_of, in_order, lemma_in_order_length, order_without,
    update_views, EngineError, EngineErrorView, FieldUpdate, ProjectState, ProjectStateView,
};
use crate::graph::find_task;
use crate::types::{day_of, task_views, CPMResult, Calendar, Task};

verus! {

/// Loads tasks and calendar into the state and marks it initialized.
/// Returns the number of tasks then filed.
pub fn initialize_engine(project: &mut ProjectState, tasks: Vec<Task>, calendar: Calendar) -> (count:
    usize)
    ensures
        final(project)@ == (ProjectStateView {
            tasks: all_filed(task_views(tasks@), tasks.len() as int),
            task_order: ids_of(task_views(tasks@), tasks.len() as int),
            calendar: Some(calendar@),
            initialized: true,
        }),
        count == final(project)@.tasks.len(),
{
    project.load_tasks(tasks);
    project.calendar = Some(calendar);
    project.initialized = true;
    project.task_count()
}

/// Applies a partial update to the task filed under `id`. Refused before
/// the state is initialized, and where no task has the identifier.
pub fn update_engine_task(project: &mut ProjectState, id: &str, updates: &Vec<FieldUpdate>) -> (r:
    Result<(), EngineError>)
    ensures
        !old(project)@.initialized ==> r is Err && r->Err_0@ == EngineErrorView::NotInitialized
            && final(project)@ == old(project)@,
        old(project)@.initialized ==> match find_task(old(project)@.tasks, id@) {
            Some(place) => r is Ok && final(project)@ == (ProjectStateView {
                tasks: old(project)@.tasks.update(
                    place,
                    fields_applied(
                        old(project)@.tasks[place],
                        update_views(updates@),
                        updates.len() as int,
                    ),
                ),
                ..old(project)@
            }),
            None => r is Err && r->Err_0@ == EngineErrorView::UnknownTask(id@) && final(project)@
                == old(project)@,
        },
{
    if !project.initialized {
        return Err(EngineError::NotInitialized);
    }
    project.update_task(id, updates)
}

/// Files a task. Refused before the state is initialized.
pub fn add_engine_task(project: &mut ProjectState, task: Task) -> (r: Result<(), EngineError>)
    ensures
        !old(project)@.initialized ==> r is Err && r->Err_0@ == EngineErrorView::NotInitialized
            && final(project)@ == old(project)@,
        old(project)@.initialized ==> r is Ok && final(project)@ == (ProjectStateView {
            tasks: filed(old(project)@.tasks, task@),
            task_order: if old(project)@.task_order.contains(task@.id) {
                old(project)@.task_order
            } else {
                old(project)@.task_order.push(task@.id)
            },
            ..old(project)@
        }),
{
    if !project.initialized {
        return Err(EngineError::NotInitialized);
    }
    project.add_task(task);
    Ok(())
}

/// Removes the task filed under `id`. Refused before the state is
/// initialized, and where no task has the identifier.
pub fn delete_engine_task(project: &mut ProjectState, id: &str) -> (r: Result<(), EngineError>)
    ensures
        !old(project)@.initialized ==> r is Err && r->Err_0@ == EngineErrorView::NotInitialized
            && final(project)@ == old(project)@,
        old(project)@.initialized ==> match find_task(old(project)@.tasks, id@) {
            Some(place) => r is Ok && final(project)@ == (ProjectStateView {
                tasks: old(project)@.tasks.remove(place),
                task_order: order_without(
                    old(project)@.task_order,
                    id@,
                    old(project)@.task_order.len() as int,
                ),
                ..old(project)@
            }),
            None => r is Err && r->Err_0@ == EngineErrorView::UnknownTask(id@) && final(project)@
                == old(project)@,
        },
{
    if !project.initialized {
        return Err(EngineError::NotInitialized);
    }
    project.delete_task(id)
}

/// Replaces all tasks by those given. Refused before the state is
/// initialized. Returns the number of tasks given.
pub fn sync_engine_tasks(project: &mut ProjectState, tasks: Vec<Task>) -> (r: Result<
    usize,
    EngineError,
>)
    ensures
        !old(project)@.initialized ==> r is Err && r->Err_0@ == EngineErrorView::NotInitialized
            && final(project)@ == old(project)@,
        old(project)@.initialized ==> r == Ok::<usize, EngineError>(tasks.len()) && final(project)@
            == (ProjectStateView {
            tasks: all_filed(task_views(tasks@), tasks.len() as int),
            task_order: ids_of(task_views(tasks@), tasks.len() as int),
            ..old(project)@
        }),
{
    if !project.initialized {
        return Err(EngineError::NotInitialized);
    }
    let count = tasks.len();
    project.load_tasks(tasks);
    Ok(count)
}

/// Schedules the tasks of the state in the order listed, with `today` as the
/// start of any task that nothing else gives a start, and files the
/// scheduled tasks in place of the old. Refused before the state is
/// initialized, and while no calendar is loaded.
pub fn calculate_cpm_on(project: &mut ProjectState, today: Option<Date>) -> (r: Result<
    CPMResult,
    EngineError,
>)
    requires
        old(project).task_order.len() <= i32::MAX,
    ensures
        !old(project)@.initialized ==> r is Err && r->Err_0@ == EngineErrorView::NotInitialized
            && final(project)@ == old(project)@,
        old(project)@.initialized && old(project)@.calendar is None ==> r is Err && r->Err_0@
            == EngineErrorView::MissingCalendar && final(project)@ == old(project)@,
        old(project)@.initialized && old(project)@.calendar is Some ==> r is Ok && r->Ok_0@
            == calculate_spec(
            in_order(
                old(project)@.tasks,
                old(project)@.task_order,
                old(project)@.task_order.len() as int,
            ),
            old(project)@.calendar->0,
            day_of(today),
        ) && final(project)@ == (ProjectStateView {
            tasks: all_filed(r->Ok_0@.tasks, r->Ok_0@.tasks.len() as int),
            task_order: ids_of(r->Ok_0@.tasks, r->Ok_0@.tasks.len() as int),
            ..old(project)@
        }),
{
    if !project.initialized {
        return Err(EngineError::NotInitialized);
    }
    let mut tasks = project.get_tasks_ordered();
    proof {
        lemma_in_order_length(
            project@.tasks,
            project@.task_order,
            project@.task_order.len() as int,
        );
    }
    let result = match &project.calendar {
        Some(calendar) => calculate_on(tasks.as_mut_slice(), calendar, today),
        None => {
            return Err(EngineError::MissingCalendar);
        },
    };
    project.load_tasks(tasks);
    Ok(result)
}

/// Schedules the tasks of the state and files the scheduled tasks in place
/// of the old. A task that nothing else gives a start begins on the day the
/// system clock shows. Refused before the state is initialized, and while no
/// calendar is loaded.
pub fn calculate_cpm(project: &mut ProjectState) -> (r: Result<CPMResult, EngineError>)
    requires
        old(project).task_order.len() <= i32::MAX,
    ensures
        !old(project)@.initialized ==> r is Err && r->Err_0@ == EngineErrorView::NotInitialized
            && final(project)@ == old(project)@,
        old(project)@.initialized && old(project)@.calendar is None ==> r is Err && r->Err_0@
            == EngineErrorView::MissingCalendar && final(project)@ == old(project)@,
        old(project)@.initialized && old(project)@.calendar is Some ==> r is Ok && (exists|
            today: Option<int>,
        |
            r->Ok_0@ == calculate_spec(
                in_order(
                    old(project)@.tasks,
                    old(project)@.task_order,
                    old(project)@.task_order.len() as int,
                ),
                old(project)@.calendar->0,
                today,
            )) && final(project)@ == (ProjectStateView {
            tasks: all_filed(r->Ok_0@.tasks, r->Ok_0@.tasks.len() as int),
            task_order: ids_of(r->Ok_0@.tasks, r->Ok_0@.tasks.len() as int),
            ..old(project)@
        }),
{
    let now = today_date();
    calculate_cpm_on(project, now)
}

/// Whether the state is initialized, how many tasks are filed, and whether
/// a calendar is loaded.
pub fn get_engine_status(project: &ProjectState) -> (r: (bool, usize, bool))
    ensures
        r.0 == project@.initialized,
        r.1 == project@.tasks.len(),
        r.2 == (project@.calendar is Some),
{
    (project.initialized, project.task_count(), project.calendar.is_some())
}

/// Drops tasks and calendar and marks the state uninitialized.
pub fn clear_engine(project: &mut ProjectState)
    ensures
        final(project)@ == (ProjectStateView {
            tasks: Seq::empty(),
            task_order: Seq::empty(),
            calendar: None,
            initialized: false,
        }),
{
    project.clear();
}

} // verus!
