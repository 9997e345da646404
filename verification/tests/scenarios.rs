use cpm_engine::cpm::{calculate_on, calculate_parent_dates};
use cpm_engine::date_utils::{format_date, parse_date, Date};
use cpm_engine::types::{Calendar, Dependency, Task};

fn week() -> Calendar {
    Calendar { working_days: vec![1, 2, 3, 4, 5], exceptions: vec![] }
}

fn day(text: &str) -> Option<Date> {
    let date = parse_date(text);
    assert!(date.is_some());
    date
}

fn text(date: Option<Date>) -> String {
    match date {
        Some(date) => format_date(&date),
        None => String::new(),
    }
}

fn task(id: &str, duration: i32) -> Task {
    Task {
        id: id.to_string(),
        name: id.to_string(),
        parent_id: None,
        sort_key: id.to_string(),
        row_type: None,
        level: 0,
        start: None,
        end: None,
        duration,
        constraint_type: String::from("asap"),
        constraint_date: None,
        scheduling_mode: String::from("Auto"),
        dependencies: vec![],
        progress: 0,
        notes: String::new(),
        is_critical: None,
        late_start: None,
        late_finish: None,
        total_float_days: None,
        free_float_days: None,
        collapsed: None,
        actual_start: None,
        actual_finish: None,
        remaining_duration: None,
        baseline_start: None,
        baseline_finish: None,
        baseline_duration: None,
        wbs: None,
        trade_partner_ids: None,
    }
}

fn link(id: &str, kind: &str, lag: i32) -> Dependency {
    Dependency { id: id.to_string(), link_type: kind.to_string(), lag }
}

#[test]
fn two_tasks_finish_to_start() {
    let mut a = task("A", 3);
    a.start = day("2024-01-01");
    let mut b = task("B", 2);
    b.dependencies = vec![link("A", "FS", 0)];
    let mut tasks = vec![a, b];
    let result = calculate_on(&mut tasks, &week(), day("2024-06-03"));
    assert_eq!(text(tasks[0].start), "2024-01-01");
    assert_eq!(text(tasks[0].end), "2024-01-03");
    assert_eq!(text(tasks[1].start), "2024-01-04");
    assert_eq!(text(tasks[1].end), "2024-01-05");
    assert_eq!(tasks[0].is_critical, Some(true));
    assert_eq!(tasks[1].is_critical, Some(true));
    assert_eq!(result.stats.duration, 5);
    assert_eq!(result.stats.task_count, 2);
    assert_eq!(result.stats.critical_count, 2);
    assert_eq!(text(result.stats.project_end), "2024-01-05");
    assert_eq!(result.stats.error, None);
    assert_eq!(result.tasks, tasks);
}

#[test]
fn finish_to_start_across_a_weekend() {
    let mut a = task("A", 2);
    a.start = day("2024-01-04");
    let mut b = task("B", 1);
    b.dependencies = vec![link("A", "FS", 0)];
    let mut tasks = vec![a, b];
    calculate_on(&mut tasks, &week(), day("2024-06-03"));
    assert_eq!(text(tasks[0].end), "2024-01-05");
    assert_eq!(text(tasks[1].start), "2024-01-08");
    assert_eq!(text(tasks[1].end), "2024-01-08");
}

#[test]
fn start_to_start_with_lag() {
    let mut a = task("A", 5);
    a.start = day("2024-01-01");
    let mut b = task("B", 3);
    b.dependencies = vec![link("A", "SS", 2)];
    let mut tasks = vec![a, b];
    calculate_on(&mut tasks, &week(), day("2024-06-03"));
    assert_eq!(text(tasks[0].end), "2024-01-05");
    assert_eq!(text(tasks[1].start), "2024-01-03");
    assert_eq!(text(tasks[1].end), "2024-01-05");
}

#[test]
fn milestone_as_successor() {
    let mut a = task("A", 4);
    a.start = day("2024-01-01");
    let mut m = task("M", 0);
    m.dependencies = vec![link("A", "FS", 0)];
    let mut tasks = vec![a, m];
    calculate_on(&mut tasks, &week(), day("2024-06-03"));
    assert_eq!(text(tasks[0].end), "2024-01-04");
    assert_eq!(text(tasks[1].start), "2024-01-05");
    assert_eq!(text(tasks[1].end), "2024-01-05");
    assert_eq!(tasks[1].is_critical, Some(true));
    assert_eq!(tasks[1].total_float_days, Some(0));
}

#[test]
fn start_no_earlier_than_later_than_the_dependency() {
    let mut a = task("A", 2);
    a.start = day("2024-01-01");
    let mut b = task("B", 1);
    b.dependencies = vec![link("A", "FS", 0)];
    b.constraint_type = String::from("SNET");
    b.constraint_date = day("2024-01-10");
    let mut tasks = vec![a, b];
    calculate_on(&mut tasks, &week(), day("2024-06-03"));
    assert_eq!(text(tasks[0].end), "2024-01-02");
    assert_eq!(text(tasks[1].start), "2024-01-10");
    assert_eq!(text(tasks[1].end), "2024-01-10");
    assert_eq!(text(tasks[0].late_finish), "2024-01-09");
    assert_eq!(text(tasks[0].late_start), "2024-01-08");
    assert_eq!(tasks[0].total_float_days, Some(5));
    assert_eq!(tasks[0].free_float_days, Some(5));
    assert_eq!(tasks[0].is_critical, Some(false));
    assert_eq!(tasks[1].total_float_days, Some(0));
    assert_eq!(tasks[1].is_critical, Some(true));
}

#[test]
fn parent_rollup_with_two_children() {
    let parent = task("P", 1);
    let mut first = task("C1", 3);
    first.parent_id = Some(String::from("P"));
    first.start = day("2024-01-01");
    first.end = day("2024-01-03");
    let mut second = task("C2", 5);
    second.parent_id = Some(String::from("P"));
    second.start = day("2024-01-02");
    second.end = day("2024-01-08");
    let mut tasks = vec![parent, first, second];
    calculate_parent_dates(&mut tasks, &week());
    assert_eq!(text(tasks[0].start), "2024-01-01");
    assert_eq!(text(tasks[0].end), "2024-01-08");
    assert_eq!(tasks[0].duration, 6);
    assert_eq!(text(tasks[1].start), "2024-01-01");
    assert_eq!(text(tasks[2].end), "2024-01-08");
}

#[test]
fn parent_rollup_within_a_run() {
    let parent = task("P", 1);
    let mut first = task("C1", 3);
    first.parent_id = Some(String::from("P"));
    first.start = day("2024-01-01");
    let mut second = task("C2", 5);
    second.parent_id = Some(String::from("P"));
    second.start = day("2024-01-02");
    let mut tasks = vec![parent, first, second];
    let result = calculate_on(&mut tasks, &week(), day("2024-06-03"));
    assert_eq!(text(tasks[1].end), "2024-01-03");
    assert_eq!(text(tasks[2].end), "2024-01-08");
    assert_eq!(text(tasks[0].start), "2024-01-01");
    assert_eq!(text(tasks[0].end), "2024-01-08");
    assert_eq!(tasks[0].duration, 6);
    assert_eq!(result.stats.duration, 6);
    assert_eq!(result.stats.task_count, 3);
}

#[test]
fn empty_task_list_gives_zero_figures() {
    let mut tasks: Vec<Task> = vec![];
    let result = calculate_on(&mut tasks, &week(), day("2024-06-03"));
    assert!(result.tasks.is_empty());
    assert_eq!(result.stats.task_count, 0);
    assert_eq!(result.stats.critical_count, 0);
    assert_eq!(result.stats.project_end, None);
    assert_eq!(result.stats.duration, 0);
    assert_eq!(result.stats.error, None);
}
