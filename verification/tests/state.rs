use cpm_engine::commands::{
    add_engine_task, calculate_cpm, calculate_cpm_on, clear_engine, delete_engine_task,
    get_engine_status, initialize_engine, sync_engine_tasks, update_engine_task,
};
use cpm_engine::date_utils::{format_date, parse_date, today, Date};
use cpm_engine::engine::SchedulerEngine;
use cpm_engine::engine_state::{
    apply_field, EngineError, FieldUpdate, ProjectState, UpdateValue,
};
use cpm_engine::types::{Calendar, Dependency, Task};

fn week() -> Calendar {
    Calendar { working_days: vec![1, 2, 3, 4, 5], exceptions: vec![] }
}

fn day(text: &str) -> Option<Date> {
    let date = parse_date(text);
    assert!(date.is_some());
    date
}

fn text(date: Option<Date>) -> String {
    match date {
        Some(date) => format_date(&date),
        None => String::new(),
    }
}

fn task(id: &str, duration: i32) -> Task {
    Task {
        id: id.to_string(),
        name: id.to_string(),
        parent_id: None,
        sort_key: id.to_string(),
        row_type: None,
        level: 0,
        start: None,
        end: None,
        duration,
        constraint_type: String::from("asap"),
        constraint_date: None,
        scheduling_mode: String::from("Auto"),
        dependencies: vec![],
        progress: 0,
        notes: String::new(),
        is_critical: None,
        late_start: None,
        late_finish: None,
        total_float_days: None,
        free_float_days: None,
        collapsed: None,
        actual_start: None,
        actual_finish: None,
        remaining_duration: None,
        baseline_start: None,
        baseline_finish: None,
        baseline_duration: None,
        wbs: None,
        trade_partner_ids: None,
    }
}

fn named(id: &str, name: &str) -> Task {
    let mut made = task(id, 1);
    made.name = name.to_string();
    made
}

fn set_text(key: &str, value: &str) -> FieldUpdate {
    FieldUpdate { key: key.to_string(), value: UpdateValue::Text(value.to_string()) }
}

fn set_number(key: &str, value: i64) -> FieldUpdate {
    FieldUpdate { key: key.to_string(), value: UpdateValue::Integer(value) }
}

fn set_other(key: &str) -> FieldUpdate {
    FieldUpdate { key: key.to_string(), value: UpdateValue::Other }
}

fn ids(tasks: &[Task]) -> Vec<String> {
    tasks.iter().map(|task| task.id.clone()).collect()
}

#[test]
fn new_state_is_empty() {
    let state = ProjectState::new();
    assert_eq!(state.task_count(), 0);
    assert!(state.get_tasks_ordered().is_empty());
    assert!(state.calendar.is_none());
    assert!(!state.initialized);
}

#[test]
fn loaded_tasks_come_back_in_order() {
    let mut state = ProjectState::new();
    state.load_tasks(vec![task("b", 1), task("a", 2), task("c", 3)]);
    assert_eq!(state.task_count(), 3);
    assert_eq!(ids(&state.get_tasks_ordered()), vec!["b", "a", "c"]);
    assert_eq!(state.get_tasks_ordered()[1].duration, 2);
}

#[test]
fn loading_replaces_what_was_there() {
    let mut state = ProjectState::new();
    state.load_tasks(vec![task("b", 1), task("a", 2)]);
    state.load_tasks(vec![task("z", 9)]);
    assert_eq!(state.task_count(), 1);
    assert_eq!(ids(&state.get_tasks_ordered()), vec!["z"]);
}

#[test]
fn later_task_with_the_same_identifier_takes_the_place() {
    let mut state = ProjectState::new();
    state.load_tasks(vec![named("a", "first"), task("b", 1), named("a", "second")]);
    assert_eq!(state.task_count(), 2);
    let ordered = state.get_tasks_ordered();
    assert_eq!(ids(&ordered), vec!["a", "b", "a"]);
    assert_eq!(ordered[0].name, "second");
    assert_eq!(ordered[2].name, "second");
}

#[test]
fn added_task_is_listed_last() {
    let mut state = ProjectState::new();
    state.load_tasks(vec![task("a", 1)]);
    state.add_task(task("b", 2));
    assert_eq!(state.task_count(), 2);
    assert_eq!(ids(&state.get_tasks_ordered()), vec!["a", "b"]);
}

#[test]
fn added_task_with_a_known_identifier_replaces_in_place() {
    let mut state = ProjectState::new();
    state.load_tasks(vec![named("a", "old"), task("b", 1)]);
    state.add_task(named("a", "new"));
    assert_eq!(state.task_count(), 2);
    let ordered = state.get_tasks_ordered();
    assert_eq!(ids(&ordered), vec!["a", "b"]);
    assert_eq!(ordered[0].name, "new");
}

#[test]
fn deleted_task_is_gone() {
    let mut state = ProjectState::new();
    state.load_tasks(vec![task("a", 1), task("b", 1), task("c", 1)]);
    assert_eq!(state.delete_task("b"), Ok(()));
    assert_eq!(state.task_count(), 2);
    assert_eq!(ids(&state.get_tasks_ordered()), vec!["a", "c"]);
    assert_eq!(state.task_order, vec!["a", "c"]);
}

#[test]
fn deleting_an_unknown_task_is_an_error() {
    let mut state = ProjectState::new();
    state.load_tasks(vec![task("a", 1)]);
    assert_eq!(state.delete_task("x"), Err(EngineError::UnknownTask(String::from("x"))));
    assert_eq!(state.task_count(), 1);
}

#[test]
fn updating_an_unknown_task_is_an_error() {
    let mut state = ProjectState::new();
    state.load_tasks(vec![task("a", 1)]);
    let before = state.clone();
    let result = state.update_task("x", &vec![set_text("name", "n")]);
    assert_eq!(result, Err(EngineError::UnknownTask(String::from("x"))));
    assert_eq!(state.get_tasks_ordered(), before.get_tasks_ordered());
}

#[test]
fn error_messages() {
    assert_eq!(EngineError::NotInitialized.message(), "Engine not initialized");
    assert_eq!(EngineError::MissingCalendar.message(), "Calendar not initialized");
    assert_eq!(EngineError::UnknownTask(String::from("t-7")).message(), "Task t-7 not found");
}

#[test]
fn update_sets_texts() {
    let mut state = ProjectState::new();
    state.load_tasks(vec![task("a", 1), task("b", 1)]);
    let updates = vec![
        set_text("name", "Pour slab"),
        set_text("notes", "after rain"),
        set_text("constraintType", "snet"),
        set_text("sortKey", "a5"),
        set_text("parentId", "b"),
        set_text("wbs", "1.4"),
        set_text("actualStart", "2024-01-02"),
        set_text("actualFinish", "2024-01-05"),
        set_text("baselineStart", "2023-12-01"),
        set_text("baselineFinish", "2023-12-09"),
    ];
    assert_eq!(state.update_task("a", &updates), Ok(()));
    let a = &state.get_tasks_ordered()[0];
    assert_eq!(a.name, "Pour slab");
    assert_eq!(a.notes, "after rain");
    assert_eq!(a.constraint_type, "snet");
    assert_eq!(a.sort_key, "a5");
    assert_eq!(a.parent_id.as_deref(), Some("b"));
    assert_eq!(a.wbs.as_deref(), Some("1.4"));
    assert_eq!(a.actual_start.as_deref(), Some("2024-01-02"));
    assert_eq!(a.actual_finish.as_deref(), Some("2024-01-05"));
    assert_eq!(a.baseline_start.as_deref(), Some("2023-12-01"));
    assert_eq!(a.baseline_finish.as_deref(), Some("2023-12-09"));
    assert_eq!(state.get_tasks_ordered()[1], task("b", 1));
}

#[test]
fn update_sets_numbers() {
    let mut state = ProjectState::new();
    state.load_tasks(vec![task("a", 1)]);
    let updates = vec![
        set_number("duration", 12),
        set_number("progress", 55),
        set_number("level", 2),
        set_number("remainingDuration", 7),
        set_number("baselineDuration", 11),
    ];
    assert_eq!(state.update_task("a", &updates), Ok(()));
    let a = &state.get_tasks_ordered()[0];
    assert_eq!(a.duration, 12);
    assert_eq!(a.progress, 55);
    assert_eq!(a.level, 2);
    assert_eq!(a.remaining_duration, Some(7));
    assert_eq!(a.baseline_duration, Some(11));
}

#[test]
fn update_cuts_or_refuses_numbers_that_do_not_fit() {
    let mut a = task("a", 1);
    a.remaining_duration = Some(3);
    apply_field(&mut a, &set_number("duration", (1i64 << 32) + 5));
    apply_field(&mut a, &set_number("progress", -1));
    apply_field(&mut a, &set_number("level", i64::from(i32::MAX) + 1));
    apply_field(&mut a, &set_number("remainingDuration", i64::from(i32::MAX) + 1));
    apply_field(&mut a, &set_number("baselineDuration", i64::from(i32::MIN) - 1));
    assert_eq!(a.duration, 5);
    assert_eq!(a.progress, -1);
    assert_eq!(a.level, i32::MIN);
    assert_eq!(a.remaining_duration, Some(3));
    assert_eq!(a.baseline_duration, None);
    apply_field(&mut a, &set_number("remainingDuration", i64::from(i32::MIN)));
    apply_field(&mut a, &set_number("baselineDuration", i64::from(i32::MAX)));
    assert_eq!(a.remaining_duration, Some(i32::MIN));
    assert_eq!(a.baseline_duration, Some(i32::MAX));
}

#[test]
fn update_sets_dates() {
    let mut a = task("a", 1);
    apply_field(&mut a, &set_text("start", "2024-01-02"));
    apply_field(&mut a, &set_text("end", "2024-01-05"));
    apply_field(&mut a, &set_text("constraintDate", "2024-01-10"));
    assert_eq!(text(a.start), "2024-01-02");
    assert_eq!(text(a.end), "2024-01-05");
    assert_eq!(text(a.constraint_date), "2024-01-10");
    apply_field(&mut a, &set_text("start", ""));
    apply_field(&mut a, &set_text("end", "soon"));
    assert_eq!(a.start, None);
    assert_eq!(a.end, None);
}

#[test]
fn update_with_another_kind_of_value_leaves_or_clears() {
    let mut a = task("a", 4);
    a.name = String::from("keep");
    a.start = day("2024-01-02");
    a.constraint_date = day("2024-01-10");
    a.parent_id = Some(String::from("p"));
    a.wbs = Some(String::from("1"));
    a.actual_start = Some(String::from("s"));
    a.dependencies = vec![Dependency { id: String::from("x"), link_type: String::from("FS"), lag: 0 }];
    apply_field(&mut a, &set_other("name"));
    apply_field(&mut a, &set_number("name", 3));
    apply_field(&mut a, &set_text("duration", "9"));
    apply_field(&mut a, &set_other("start"));
    apply_field(&mut a, &set_other("dependencies"));
    assert_eq!(a.name, "keep");
    assert_eq!(a.duration, 4);
    assert_eq!(text(a.start), "2024-01-02");
    assert_eq!(a.dependencies.len(), 1);
    apply_field(&mut a, &set_other("constraintDate"));
    apply_field(&mut a, &set_other("parentId"));
    apply_field(&mut a, &set_number("wbs", 1));
    apply_field(&mut a, &set_other("actualStart"));
    assert_eq!(a.constraint_date, None);
    assert_eq!(a.parent_id, None);
    assert_eq!(a.wbs, None);
    assert_eq!(a.actual_start, None);
}

#[test]
fn update_sets_dependencies() {
    let mut a = task("a", 1);
    let list = vec![
        Dependency { id: String::from("x"), link_type: String::from("SS"), lag: 2 },
        Dependency { id: String::from("y"), link_type: String::from("FS"), lag: -1 },
    ];
    let update = FieldUpdate {
        key: String::from("dependencies"),
        value: UpdateValue::Dependencies(list.clone()),
    };
    apply_field(&mut a, &update);
    assert_eq!(a.dependencies, list);
}

#[test]
fn update_ignores_unknown_fields() {
    let mut a = task("a", 1);
    let before = a.clone();
    apply_field(&mut a, &set_text("colour", "red"));
    apply_field(&mut a, &set_text("id", "other"));
    apply_field(&mut a, &set_text("schedulingMode", "Manual"));
    apply_field(&mut a, &set_text("Name", "capital"));
    assert_eq!(a, before);
}

#[test]
fn later_field_wins() {
    let mut state = ProjectState::new();
    state.load_tasks(vec![task("a", 1)]);
    let updates = vec![set_text("name", "one"), set_number("duration", 3), set_text("name", "two")];
    assert_eq!(state.update_task("a", &updates), Ok(()));
    let a = &state.get_tasks_ordered()[0];
    assert_eq!(a.name, "two");
    assert_eq!(a.duration, 3);
}

#[test]
fn clear_drops_everything() {
    let mut state = ProjectState::new();
    state.load_tasks(vec![task("a", 1)]);
    state.calendar = Some(week());
    state.initialized = true;
    state.clear();
    assert_eq!(state.task_count(), 0);
    assert!(state.task_order.is_empty());
    assert!(state.calendar.is_none());
    assert!(!state.initialized);
}

#[test]
fn passthrough_result_hands_the_tasks_through() {
    let mut a = task("a", 1);
    a.end = day("2024-01-05");
    let mut b = task("b", 1);
    b.end = day("2024-03-01");
    let mut state = ProjectState::new();
    state.load_tasks(vec![a.clone(), b.clone(), task("c", 1)]);
    let result = state.create_passthrough_result();
    assert_eq!(result.tasks, vec![a, b, task("c", 1)]);
    assert_eq!(result.stats.task_count, 3);
    assert_eq!(result.stats.critical_count, 0);
    assert_eq!(text(result.stats.project_end), "2024-03-01");
    assert_eq!(result.stats.duration, 0);
    assert_eq!(
        result.stats.error.as_deref(),
        Some("Rust CPM not yet implemented - using passthrough")
    );
}

#[test]
fn passthrough_result_of_an_empty_state() {
    let result = ProjectState::new().create_passthrough_result();
    assert!(result.tasks.is_empty());
    assert_eq!(result.stats.task_count, 0);
    assert_eq!(result.stats.project_end, None);
}

#[test]
fn operations_before_initialization_are_refused() {
    let mut state = ProjectState::new();
    assert_eq!(
        update_engine_task(&mut state, "a", &vec![set_text("name", "n")]),
        Err(EngineError::NotInitialized)
    );
    assert_eq!(add_engine_task(&mut state, task("a", 1)), Err(EngineError::NotInitialized));
    assert_eq!(delete_engine_task(&mut state, "a"), Err(EngineError::NotInitialized));
    assert_eq!(sync_engine_tasks(&mut state, vec![task("a", 1)]), Err(EngineError::NotInitialized));
    assert_eq!(calculate_cpm(&mut state).err(), Some(EngineError::NotInitialized));
    assert_eq!(state.task_count(), 0);
    assert_eq!(get_engine_status(&state), (false, 0, false));
}

#[test]
fn initialized_state_takes_operations() {
    let mut state = ProjectState::new();
    assert_eq!(initialize_engine(&mut state, vec![task("a", 1), task("b", 2)], week()), 2);
    assert_eq!(get_engine_status(&state), (true, 2, true));
    assert_eq!(update_engine_task(&mut state, "a", &vec![set_number("duration", 4)]), Ok(()));
    assert_eq!(
        update_engine_task(&mut state, "zz", &vec![set_number("duration", 4)]),
        Err(EngineError::UnknownTask(String::from("zz")))
    );
    assert_eq!(add_engine_task(&mut state, task("c", 3)), Ok(()));
    assert_eq!(delete_engine_task(&mut state, "b"), Ok(()));
    assert_eq!(
        delete_engine_task(&mut state, "b"),
        Err(EngineError::UnknownTask(String::from("b")))
    );
    assert_eq!(ids(&state.get_tasks_ordered()), vec!["a", "c"]);
    assert_eq!(state.get_tasks_ordered()[0].duration, 4);
    assert_eq!(sync_engine_tasks(&mut state, vec![task("x", 1)]), Ok(1));
    assert_eq!(get_engine_status(&state), (true, 1, true));
    clear_engine(&mut state);
    assert_eq!(get_engine_status(&state), (false, 0, false));
}

#[test]
fn run_without_calendar_is_refused() {
    let mut state = ProjectState::new();
    state.load_tasks(vec![task("a", 1)]);
    state.initialized = true;
    assert_eq!(calculate_cpm(&mut state).err(), Some(EngineError::MissingCalendar));
    assert_eq!(state.get_tasks_ordered(), vec![task("a", 1)]);
}

#[test]
fn run_files_the_scheduled_tasks() {
    let mut a = task("A", 3);
    a.start = day("2024-01-01");
    let mut b = task("B", 2);
    b.dependencies = vec![Dependency { id: String::from("A"), link_type: String::from("FS"), lag: 0 }];
    let mut state = ProjectState::new();
    initialize_engine(&mut state, vec![a, b], week());
    let result = calculate_cpm_on(&mut state, day("2024-06-03")).unwrap();
    assert_eq!(result.stats.duration, 5);
    let filed = state.get_tasks_ordered();
    assert_eq!(filed, result.tasks);
    assert_eq!(text(filed[1].start), "2024-01-04");
    assert_eq!(filed[1].is_critical, Some(true));
}

#[test]
fn run_of_the_state_reads_the_clock() {
    let mut state = ProjectState::new();
    initialize_engine(&mut state, vec![task("A", 1)], week());
    let before = today();
    let result = calculate_cpm(&mut state).unwrap();
    let after = today();
    let start = text(result.tasks[0].start);
    assert!(start == before || start == after);
}

#[test]
fn engine_starts_empty() {
    let engine = SchedulerEngine::new();
    assert_eq!(engine.task_count(), 0);
    assert!(!engine.is_initialized());
    assert!(engine.get_tasks().is_empty());
}

#[test]
fn engine_refuses_operations_before_initialization() {
    let mut engine = SchedulerEngine::new();
    assert_eq!(engine.add_task(task("a", 1)), Err(EngineError::NotInitialized));
    assert_eq!(
        engine.update_task("a", &vec![set_text("name", "n")]),
        Err(EngineError::NotInitialized)
    );
    assert_eq!(engine.delete_task("a"), Err(EngineError::NotInitialized));
    assert_eq!(engine.calculate().err(), Some(EngineError::NotInitialized));
    assert_eq!(engine.task_count(), 0);
}

#[test]
fn engine_disposed_is_uninitialized_again() {
    let mut engine = SchedulerEngine::new();
    engine.initialize(vec![task("a", 1)], week());
    engine.dispose();
    engine.sync_tasks(vec![task("a", 1)]);
    assert_eq!(engine.task_count(), 1);
    assert_eq!(engine.calculate().err(), Some(EngineError::NotInitialized));
}

#[test]
fn engine_keeps_tasks_in_the_order_given() {
    let mut engine = SchedulerEngine::new();
    engine.initialize(vec![task("b", 1), task("a", 1)], week());
    assert!(engine.is_initialized());
    assert_eq!(engine.add_task(task("b", 5)), Ok(()));
    assert_eq!(engine.task_count(), 3);
    assert_eq!(ids(&engine.get_tasks()), vec!["b", "a", "b"]);
}

#[test]
fn engine_updates_the_first_task_with_the_identifier() {
    let mut engine = SchedulerEngine::new();
    engine.initialize(vec![task("b", 1), task("a", 1), task("b", 1)], week());
    let updates = vec![
        set_text("name", "new"),
        set_number("duration", 8),
        set_text("start", "2024-01-02"),
        set_text("end", "2024-01-11"),
        set_text("constraintType", "fnlt"),
        set_text("constraintDate", "2024-02-01"),
        set_text("schedulingMode", "Manual"),
        set_number("progress", 10),
        set_text("notes", "n"),
        set_text("parentId", "a"),
        set_text("sortKey", "k"),
        set_text("wbs", "ignored"),
        set_number("level", 9),
    ];
    assert_eq!(engine.update_task("b", &updates), Ok(()));
    let tasks = engine.get_tasks();
    assert_eq!(tasks[0].name, "new");
    assert_eq!(tasks[0].duration, 8);
    assert_eq!(text(tasks[0].start), "2024-01-02");
    assert_eq!(text(tasks[0].end), "2024-01-11");
    assert_eq!(tasks[0].constraint_type, "fnlt");
    assert_eq!(text(tasks[0].constraint_date), "2024-02-01");
    assert_eq!(tasks[0].scheduling_mode, "Manual");
    assert_eq!(tasks[0].progress, 10);
    assert_eq!(tasks[0].notes, "n");
    assert_eq!(tasks[0].parent_id.as_deref(), Some("a"));
    assert_eq!(tasks[0].sort_key, "k");
    assert_eq!(tasks[0].wbs, None);
    assert_eq!(tasks[0].level, 0);
    assert_eq!(tasks[2], task("b", 1));
    assert_eq!(
        engine.update_task("zz", &updates),
        Err(EngineError::UnknownTask(String::from("zz")))
    );
}

#[test]
fn engine_deletes_every_task_with_the_identifier() {
    let mut engine = SchedulerEngine::new();
    engine.initialize(vec![task("b", 1), task("a", 1), task("b", 2)], week());
    assert_eq!(engine.delete_task("b"), Ok(()));
    assert_eq!(ids(&engine.get_tasks()), vec!["a"]);
    assert_eq!(engine.delete_task("b"), Err(EngineError::UnknownTask(String::from("b"))));
    assert_eq!(engine.task_count(), 1);
}

#[test]
fn engine_runs_and_keeps_the_schedule() {
    let mut a = task("A", 3);
    a.start = day("2024-01-01");
    let mut engine = SchedulerEngine::new();
    engine.initialize(vec![a], week());
    let result = engine.calculate_on(day("2024-06-03")).unwrap();
    assert_eq!(result.stats.duration, 3);
    assert_eq!(engine.get_tasks(), result.tasks);
    assert_eq!(text(engine.get_tasks()[0].end), "2024-01-03");
    let every_day = Calendar { working_days: vec![0, 1, 2, 3, 4, 5, 6], exceptions: vec![] };
    engine.update_calendar(every_day);
    engine.sync_tasks(vec![{
        let mut t = task("A", 7);
        t.start = day("2024-01-01");
        t
    }]);
    let again = engine.calculate().unwrap();
    assert_eq!(text(again.tasks[0].end), "2024-01-07");
    engine.dispose();
    assert_eq!(engine.task_count(), 0);
    assert!(!engine.is_initialized());
}
