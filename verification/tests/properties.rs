use cpm_engine::cpm::calculate_on;
use cpm_engine::date_utils::{
    count_work_days, is_work_day, parse_date, shift_work_days, work_days_signed, Date,
};
use cpm_engine::graph::{find_task_index, is_parent, link_kind, LinkKind};
use cpm_engine::types::{Calendar, CalendarException, Dependency, Task};

fn calendar() -> Calendar {
    Calendar {
        working_days: vec![1, 2, 3, 4, 5],
        exceptions: vec![
            CalendarException { date: String::from("2024-01-08"), working: Some(false) },
            CalendarException { date: String::from("2024-01-13"), working: Some(true) },
        ],
    }
}

fn day(text: &str) -> Option<Date> {
    let date = parse_date(text);
    assert!(date.is_some());
    date
}

fn task(id: &str, duration: i32, parent: Option<&str>) -> Task {
    Task {
        id: id.to_string(),
        name: id.to_string(),
        parent_id: parent.map(|p| p.to_string()),
        sort_key: id.to_string(),
        row_type: None,
        level: 0,
        start: None,
        end: None,
        duration,
        constraint_type: String::new(),
        constraint_date: None,
        scheduling_mode: String::from("Auto"),
        dependencies: vec![],
        progress: 0,
        notes: String::new(),
        is_critical: None,
        late_start: None,
        late_finish: None,
        total_float_days: None,
        free_float_days: None,
        collapsed: None,
        actual_start: None,
        actual_finish: None,
        remaining_duration: None,
        baseline_start: None,
        baseline_finish: None,
        baseline_duration: None,
        wbs: None,
        trade_partner_ids: None,
    }
}

fn link(id: &str, kind: &str, lag: i32) -> Dependency {
    Dependency { id: id.to_string(), link_type: kind.to_string(), lag }
}

fn project() -> Vec<Task> {
    let root = task("R", 1, None);
    let group = task("G", 1, Some("R"));
    let mut a = task("A", 3, Some("G"));
    a.start = day("2024-01-01");
    let mut b = task("B", 2, Some("G"));
    b.dependencies = vec![link("A", "FS", 1)];
    let mut c = task("C", 4, Some("R"));
    c.dependencies = vec![link("A", "SS", 1)];
    c.constraint_type = String::from("SNET");
    c.constraint_date = day("2024-01-04");
    let mut m = task("M", 0, Some("R"));
    m.dependencies = vec![link("B", "FS", 0), link("C", "FS", 0)];
    let mut f = task("F", 2, None);
    f.dependencies = vec![link("M", "FS", 0)];
    f.constraint_type = String::from("fnlt");
    f.constraint_date = day("2024-02-01");
    let mut side = task("S", 1, None);
    side.dependencies = vec![link("A", "FS", -1)];
    vec![root, group, a, b, c, m, f, side]
}

fn scheduled() -> Vec<Task> {
    let mut tasks = project();
    calculate_on(&mut tasks, &calendar(), day("2024-06-03"));
    tasks
}

fn leaf(tasks: &[Task], task: &Task) -> bool {
    !is_parent(&task.id, tasks)
}

fn children<'a>(tasks: &'a [Task], parent: &Task) -> Vec<&'a Task> {
    tasks.iter().filter(|t| t.parent_id.as_deref() == Some(parent.id.as_str())).collect()
}

#[test]
fn schedule_of_the_sample_project() {
    let tasks = scheduled();
    let shown: Vec<(String, String, String)> = tasks
        .iter()
        .map(|t| {
            (
                t.id.clone(),
                t.start.map(|d| cpm_engine::date_utils::format_date(&d)).unwrap_or_default(),
                t.end.map(|d| cpm_engine::date_utils::format_date(&d)).unwrap_or_default(),
            )
        })
        .collect();
    let expected = vec![
        ("R", "2024-01-01", "2024-01-11"),
        ("G", "2024-01-01", "2024-01-09"),
        ("A", "2024-01-01", "2024-01-03"),
        ("B", "2024-01-05", "2024-01-09"),
        ("C", "2024-01-04", "2024-01-10"),
        ("M", "2024-01-11", "2024-01-11"),
        ("F", "2024-01-12", "2024-01-13"),
        ("S", "2024-01-03", "2024-01-03"),
    ];
    for (got, want) in shown.iter().zip(expected.iter()) {
        assert_eq!((got.0.as_str(), got.1.as_str(), got.2.as_str()), *want);
    }
}

#[test]
fn leaves_span_their_duration() {
    let tasks = scheduled();
    let calendar = calendar();
    let mut seen = 0;
    for task in tasks.iter().filter(|t| leaf(&tasks, t)) {
        let (start, end) = (task.start.unwrap(), task.end.unwrap());
        if task.duration >= 1 {
            assert_eq!(count_work_days(start, end, &calendar), task.duration, "{}", task.id);
        } else {
            assert_eq!(start, end);
            assert!(is_work_day(&start, &calendar));
        }
        seen += 1;
    }
    assert_eq!(seen, 6);
}

#[test]
fn parents_span_their_children() {
    let tasks = scheduled();
    let calendar = calendar();
    let mut seen = 0;
    for parent in tasks.iter().filter(|t| !leaf(&tasks, t)) {
        let kids = children(&tasks, parent);
        let first = kids.iter().map(|k| k.start.unwrap().day).min().unwrap();
        let last = kids.iter().map(|k| k.end.unwrap().day).max().unwrap();
        assert_eq!(parent.start.unwrap().day, first);
        assert_eq!(parent.end.unwrap().day, last);
        assert_eq!(
            parent.duration,
            count_work_days(parent.start.unwrap(), parent.end.unwrap(), &calendar)
        );
        seen += 1;
    }
    assert_eq!(seen, 2);
    assert_eq!(tasks[0].duration, 8);
    assert_eq!(tasks[1].duration, 6);
}

#[test]
fn finish_to_start_links_are_honoured() {
    let tasks = scheduled();
    let calendar = calendar();
    let mut seen = 0;
    for task in tasks.iter().filter(|t| leaf(&tasks, t)) {
        for dependency in &task.dependencies {
            if link_kind(&dependency.link_type) != LinkKind::FinishToStart {
                continue;
            }
            let before = &tasks[find_task_index(&tasks, &dependency.id).unwrap()];
            let gap = work_days_signed(before.end.unwrap(), task.start.unwrap(), &calendar);
            assert!(gap >= 1 + dependency.lag, "{} after {}", task.id, before.id);
            seen += 1;
        }
    }
    assert_eq!(seen, 5);
}

#[test]
fn free_float_lies_between_zero_and_total_float() {
    let tasks = scheduled();
    for task in tasks.iter().filter(|t| leaf(&tasks, t)) {
        let total = task.total_float_days.unwrap();
        let free = task.free_float_days.unwrap();
        assert!(0 <= free && free <= total, "{}: {} of {}", task.id, free, total);
    }
    let floats: Vec<(i32, i32)> = tasks
        .iter()
        .map(|t| (t.total_float_days.unwrap(), t.free_float_days.unwrap()))
        .collect();
    assert_eq!(floats, vec![(0, 0), (1, 0), (1, 0), (1, 1), (0, 0), (0, 0), (0, 0), (7, 7)]);
}

#[test]
fn critical_marks_match_float_and_children() {
    let tasks = scheduled();
    for task in &tasks {
        if leaf(&tasks, task) {
            assert_eq!(task.is_critical, Some(task.total_float_days.unwrap() <= 0));
        } else {
            let hot = children(&tasks, task).iter().any(|k| k.is_critical == Some(true));
            assert_eq!(task.is_critical, Some(hot));
        }
    }
    let marks: Vec<bool> = tasks.iter().map(|t| t.is_critical.unwrap()).collect();
    assert_eq!(marks, vec![true, false, false, false, true, true, true, false]);
}

#[test]
fn second_run_reproduces_the_schedule() {
    let calendar = calendar();
    let mut tasks = project();
    let first = calculate_on(&mut tasks, &calendar, day("2024-06-03"));
    let second = calculate_on(&mut tasks, &calendar, day("2024-07-01"));
    assert_eq!(first.tasks, second.tasks);
    assert_eq!(first.stats, second.stats);
    assert_eq!(tasks, first.tasks);
}

#[test]
fn dates_land_on_working_days() {
    let tasks = scheduled();
    let calendar = calendar();
    for task in &tasks {
        for date in [task.start, task.end, task.late_start, task.late_finish].into_iter().flatten() {
            assert!(is_work_day(&date, &calendar), "{}", task.id);
        }
    }
    for task in tasks.iter().filter(|t| leaf(&tasks, t)) {
        assert!(task.late_start.is_some() && task.late_finish.is_some());
    }
}

#[test]
fn constraints_are_respected() {
    let tasks = scheduled();
    let c = &tasks[4];
    assert!(c.start.unwrap().day >= c.constraint_date.unwrap().day);
    let f = &tasks[6];
    assert!(f.end.unwrap().day <= f.constraint_date.unwrap().day);
    assert!(f.late_finish.unwrap().day <= f.constraint_date.unwrap().day);
}

#[test]
fn finish_no_later_than_caps_the_late_finish_only() {
    let mut a = task("A", 5, None);
    a.start = day("2024-01-01");
    a.constraint_type = String::from("FNLT");
    a.constraint_date = day("2024-01-02");
    let mut tasks = vec![a];
    calculate_on(&mut tasks, &calendar(), day("2024-06-03"));
    assert!(tasks[0].end.unwrap().day > tasks[0].constraint_date.unwrap().day);
    assert_eq!(tasks[0].late_finish, tasks[0].constraint_date);
    assert!(tasks[0].total_float_days.unwrap() < 0);
    assert_eq!(tasks[0].free_float_days, tasks[0].total_float_days);
}

#[test]
fn second_run_differs_where_a_link_leans_on_a_task_with_children() {
    let parent = task("P", 1, None);
    let mut kid = task("K", 3, Some("P"));
    kid.start = day("2024-01-01");
    let mut after = task("L", 1, None);
    after.dependencies = vec![link("P", "FS", 0)];
    let mut tasks = vec![parent, kid, after];
    let calendar = calendar();
    let first = calculate_on(&mut tasks, &calendar, day("2024-06-03"));
    let second = calculate_on(&mut tasks, &calendar, day("2024-06-03"));
    assert_eq!(first.tasks[2].start, day("2024-06-03"));
    assert_eq!(second.tasks[2].start, day("2024-01-04"));
}

#[test]
fn shift_counts_the_working_days_it_passes() {
    let calendar = calendar();
    let start = day("2024-01-05").unwrap();
    let found = shift_work_days(start, 3, &calendar).unwrap();
    assert_eq!(found, day("2024-01-11").unwrap());
    assert_eq!(work_days_signed(start, found, &calendar), 3);
    let back = shift_work_days(found, -3, &calendar).unwrap();
    assert_eq!(back, start);
    assert_eq!(work_days_signed(found, back, &calendar), -3);
}
