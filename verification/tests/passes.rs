use cpm_engine::cpm::{
    backward_pass, build_successor_map, calculate, calculate_float, calculate_on,
    calculate_parent_dates, forward_pass, forward_pass_on, get_duration_offset,
    mark_critical_path,
};
use cpm_engine::date_utils::{format_date, parse_date, today, Date};
use cpm_engine::graph::{
    check_hierarchy, constraint_kind, find_task_index, get_depth, is_parent, link_kind,
    ConstraintKind, LinkKind,
};
use cpm_engine::types::{default_scheduling_mode, Calendar, Dependency, Task};

fn week() -> Calendar {
    Calendar { working_days: vec![1, 2, 3, 4, 5], exceptions: vec![] }
}

fn day(text: &str) -> Option<Date> {
    let date = parse_date(text);
    assert!(date.is_some());
    date
}

fn text(date: Option<Date>) -> String {
    match date {
        Some(date) => format_date(&date),
        None => String::new(),
    }
}

fn task(id: &str, duration: i32) -> Task {
    Task {
        id: id.to_string(),
        name: id.to_string(),
        parent_id: None,
        sort_key: id.to_string(),
        row_type: None,
        level: 0,
        start: None,
        end: None,
        duration,
        constraint_type: String::from("asap"),
        constraint_date: None,
        scheduling_mode: String::from("Auto"),
        dependencies: vec![],
        progress: 0,
        notes: String::new(),
        is_critical: None,
        late_start: None,
        late_finish: None,
        total_float_days: None,
        free_float_days: None,
        collapsed: None,
        actual_start: None,
        actual_finish: None,
        remaining_duration: None,
        baseline_start: None,
        baseline_finish: None,
        baseline_duration: None,
        wbs: None,
        trade_partner_ids: None,
    }
}

fn started(id: &str, duration: i32, start: &str) -> Task {
    let mut made = task(id, duration);
    made.start = day(start);
    made
}

fn following(id: &str, duration: i32, on: &str, kind: &str, lag: i32) -> Task {
    let mut made = task(id, duration);
    made.dependencies = vec![link(on, kind, lag)];
    made
}

fn child(id: &str, duration: i32, parent: &str) -> Task {
    let mut made = task(id, duration);
    made.parent_id = Some(parent.to_string());
    made
}

fn constrained(id: &str, duration: i32, kind: &str, date: &str) -> Task {
    let mut made = task(id, duration);
    made.constraint_type = kind.to_string();
    made.constraint_date = day(date);
    made
}

fn link(id: &str, kind: &str, lag: i32) -> Dependency {
    Dependency { id: id.to_string(), link_type: kind.to_string(), lag }
}

fn run(tasks: &mut Vec<Task>) {
    calculate_on(tasks, &week(), day("2024-06-03"));
}

#[test]
fn duration_offset_is_one_less_than_the_duration() {
    assert_eq!(get_duration_offset(5), 4);
    assert_eq!(get_duration_offset(1), 0);
    assert_eq!(get_duration_offset(0), 0);
    assert_eq!(get_duration_offset(-3), 0);
    assert_eq!(get_duration_offset(i32::MAX), i32::MAX - 1);
    assert_eq!(get_duration_offset(i32::MIN), 0);
}

#[test]
fn default_scheduling_mode_is_auto() {
    assert_eq!(default_scheduling_mode(), "Auto");
}

#[test]
fn link_types_are_read_with_finish_to_start_as_default() {
    assert_eq!(link_kind(&String::from("FS")), LinkKind::FinishToStart);
    assert_eq!(link_kind(&String::from("SS")), LinkKind::StartToStart);
    assert_eq!(link_kind(&String::from("FF")), LinkKind::FinishToFinish);
    assert_eq!(link_kind(&String::from("SF")), LinkKind::StartToFinish);
    assert_eq!(link_kind(&String::from("")), LinkKind::FinishToStart);
    assert_eq!(link_kind(&String::from("ss")), LinkKind::FinishToStart);
    assert_eq!(link_kind(&String::from("XY")), LinkKind::FinishToStart);
}

#[test]
fn constraint_types_are_read_without_regard_to_case() {
    assert_eq!(constraint_kind(&String::from("snet")), ConstraintKind::Snet);
    assert_eq!(constraint_kind(&String::from("SNET")), ConstraintKind::Snet);
    assert_eq!(constraint_kind(&String::from("Snlt")), ConstraintKind::Snlt);
    assert_eq!(constraint_kind(&String::from("FNET")), ConstraintKind::Fnet);
    assert_eq!(constraint_kind(&String::from("fnLT")), ConstraintKind::Fnlt);
    assert_eq!(constraint_kind(&String::from("MFO")), ConstraintKind::Mfo);
    assert_eq!(constraint_kind(&String::from("ASAP")), ConstraintKind::Asap);
    assert_eq!(constraint_kind(&String::from("")), ConstraintKind::Asap);
    assert_eq!(constraint_kind(&String::from("whenever")), ConstraintKind::Asap);
}

#[test]
fn tasks_are_found_by_identifier() {
    let tasks = vec![task("a", 1), task("b", 1), task("a", 2)];
    assert_eq!(find_task_index(&tasks, &String::from("a")), Some(0));
    assert_eq!(find_task_index(&tasks, &String::from("b")), Some(1));
    assert_eq!(find_task_index(&tasks, &String::from("c")), None);
}

#[test]
fn parents_and_depths_follow_the_parent_links() {
    let tasks = vec![task("root", 1), child("mid", 1, "root"), child("leaf", 1, "mid"), task(
        "alone",
        1,
    )];
    assert!(is_parent(&String::from("root"), &tasks));
    assert!(is_parent(&String::from("mid"), &tasks));
    assert!(!is_parent(&String::from("leaf"), &tasks));
    assert!(!is_parent(&String::from("alone"), &tasks));
    assert_eq!(get_depth(&String::from("root"), &tasks), 0);
    assert_eq!(get_depth(&String::from("mid"), &tasks), 1);
    assert_eq!(get_depth(&String::from("leaf"), &tasks), 2);
    assert_eq!(get_depth(&String::from("alone"), &tasks), 0);
    assert_eq!(get_depth(&String::from("nobody"), &tasks), 0);
}

#[test]
fn depth_counts_a_parent_that_is_not_in_the_list() {
    let tasks = vec![child("orphan", 1, "missing")];
    assert_eq!(get_depth(&String::from("orphan"), &tasks), 1);
}

#[test]
fn depth_of_a_task_that_is_its_own_ancestor_is_bounded() {
    let tasks = vec![child("a", 1, "b"), child("b", 1, "a")];
    assert_eq!(get_depth(&String::from("a"), &tasks), 2);
}

#[test]
fn successor_map_lists_links_by_predecessor() {
    let mut c = task("C", 1);
    c.dependencies = vec![link("A", "SS", 2), link("B", "FF", -1), link("A", "FS", 0)];
    let tasks = vec![task("A", 1), following("B", 1, "A", "FS", 3), c];
    let map = build_successor_map(&tasks);
    assert_eq!(map.len(), 3);
    assert_eq!(map[0].len(), 3);
    assert_eq!((map[0][0].id.as_str(), map[0][0].link_type.as_str(), map[0][0].lag), ("B", "FS", 3));
    assert_eq!((map[0][1].id.as_str(), map[0][1].link_type.as_str(), map[0][1].lag), ("C", "SS", 2));
    assert_eq!((map[0][2].id.as_str(), map[0][2].link_type.as_str(), map[0][2].lag), ("C", "FS", 0));
    assert_eq!(map[1].len(), 1);
    assert_eq!((map[1][0].id.as_str(), map[1][0].link_type.as_str(), map[1][0].lag), ("C", "FF", -1));
    assert!(map[2].is_empty());
}

#[test]
fn forward_finish_to_finish_with_lag() {
    let mut tasks = vec![started("A", 3, "2024-01-01"), following("B", 2, "A", "FF", 1)];
    forward_pass_on(&mut tasks, &week(), day("2024-06-03"));
    assert_eq!(text(tasks[0].end), "2024-01-03");
    assert_eq!(text(tasks[1].start), "2024-01-03");
    assert_eq!(text(tasks[1].end), "2024-01-04");
}

#[test]
fn forward_start_to_finish_with_lag() {
    let mut tasks = vec![started("A", 3, "2024-01-01"), following("B", 2, "A", "SF", 2)];
    forward_pass_on(&mut tasks, &week(), day("2024-06-03"));
    assert_eq!(text(tasks[1].start), "2024-01-02");
    assert_eq!(text(tasks[1].end), "2024-01-03");
}

#[test]
fn forward_start_to_start_with_negative_lag() {
    let mut tasks = vec![started("A", 3, "2024-01-08"), following("B", 2, "A", "SS", -2)];
    forward_pass_on(&mut tasks, &week(), day("2024-06-03"));
    assert_eq!(text(tasks[1].start), "2024-01-04");
    assert_eq!(text(tasks[1].end), "2024-01-05");
}

#[test]
fn forward_finish_to_start_with_lag() {
    let mut tasks = vec![started("A", 5, "2024-01-01"), following("B", 1, "A", "FS", 2)];
    forward_pass_on(&mut tasks, &week(), day("2024-06-03"));
    assert_eq!(text(tasks[0].end), "2024-01-05");
    assert_eq!(text(tasks[1].start), "2024-01-10");
}

#[test]
fn forward_finish_to_start_with_negative_lag() {
    let mut tasks = vec![started("A", 5, "2024-01-01"), following("B", 1, "A", "FS", -2)];
    forward_pass_on(&mut tasks, &week(), day("2024-06-03"));
    assert_eq!(text(tasks[1].start), "2024-01-04");
    assert_eq!(text(tasks[1].end), "2024-01-04");
}

#[test]
fn unknown_link_type_is_finish_to_start() {
    let mut tasks = vec![started("A", 3, "2024-01-01"), following("B", 2, "A", "??", 0)];
    forward_pass_on(&mut tasks, &week(), day("2024-06-03"));
    assert_eq!(text(tasks[1].start), "2024-01-04");
}

#[test]
fn latest_dependency_decides_the_start() {
    let mut c = task("C", 1);
    c.dependencies = vec![link("A", "FS", 0), link("B", "FS", 0)];
    let mut tasks = vec![started("A", 2, "2024-01-01"), started("B", 4, "2024-01-01"), c];
    forward_pass_on(&mut tasks, &week(), day("2024-06-03"));
    assert_eq!(text(tasks[2].start), "2024-01-05");
}

#[test]
fn dependency_on_a_task_without_dates_is_passed_over() {
    let mut parent = task("P", 1);
    parent.start = None;
    let mut tasks = vec![parent, child("C", 1, "P"), following("B", 2, "P", "FS", 0)];
    let limit = forward_pass_on(&mut tasks, &week(), day("2024-06-03"));
    assert!(!limit);
    assert_eq!(text(tasks[2].start), "2024-06-03");
    assert_eq!(text(tasks[2].end), "2024-06-04");
}

#[test]
fn dependency_on_an_unknown_task_is_passed_over() {
    let mut tasks = vec![following("B", 2, "nobody", "FS", 0)];
    forward_pass_on(&mut tasks, &week(), day("2024-06-03"));
    assert_eq!(text(tasks[0].start), "2024-06-03");
}

#[test]
fn task_without_anything_starts_today() {
    let mut tasks = vec![task("A", 3)];
    forward_pass_on(&mut tasks, &week(), day("2024-06-03"));
    assert_eq!(text(tasks[0].start), "2024-06-03");
    assert_eq!(text(tasks[0].end), "2024-06-05");
}

#[test]
fn task_without_anything_and_without_today_stays_unscheduled() {
    let mut tasks = vec![task("A", 3)];
    forward_pass_on(&mut tasks, &week(), None);
    assert_eq!(tasks[0].start, None);
    assert_eq!(tasks[0].end, None);
}

#[test]
fn forward_pass_reads_the_clock() {
    let mut tasks = vec![task("A", 1)];
    let before = today();
    forward_pass(&mut tasks, &week());
    let after = today();
    let start = text(tasks[0].start);
    assert!(start == before || start == after);
}

#[test]
fn calculate_reads_the_clock() {
    let mut tasks = vec![task("A", 1)];
    let before = today();
    let result = calculate(&mut tasks, &week());
    let after = today();
    let start = text(tasks[0].start);
    assert!(start == before || start == after);
    assert_eq!(result.stats.task_count, 1);
}

#[test]
fn given_start_is_kept_where_nothing_moves_it() {
    let mut tasks = vec![started("A", 2, "2024-01-06")];
    forward_pass_on(&mut tasks, &week(), day("2024-06-03"));
    assert_eq!(text(tasks[0].start), "2024-01-06");
    assert_eq!(text(tasks[0].end), "2024-01-08");
}

#[test]
fn negative_duration_leaves_the_finish_alone() {
    let mut a = started("A", -2, "2024-01-02");
    a.end = day("2024-02-01");
    let mut tasks = vec![a];
    forward_pass_on(&mut tasks, &week(), day("2024-06-03"));
    assert_eq!(text(tasks[0].start), "2024-01-02");
    assert_eq!(text(tasks[0].end), "2024-02-01");
}

#[test]
fn start_no_earlier_than_moves_a_start_later() {
    let mut a = constrained("A", 2, "snet", "2024-01-10");
    a.start = day("2024-01-02");
    let mut tasks = vec![a];
    forward_pass_on(&mut tasks, &week(), day("2024-06-03"));
    assert_eq!(text(tasks[0].start), "2024-01-10");
    assert_eq!(text(tasks[0].end), "2024-01-11");
}

#[test]
fn start_no_earlier_than_yields_to_a_later_dependency() {
    let mut b = constrained("B", 1, "SNET", "2024-01-02");
    b.dependencies = vec![link("A", "FS", 0)];
    let mut tasks = vec![started("A", 5, "2024-01-01"), b];
    forward_pass_on(&mut tasks, &week(), day("2024-06-03"));
    assert_eq!(text(tasks[1].start), "2024-01-08");
}

#[test]
fn start_no_later_than_pulls_a_start_in() {
    let mut a = constrained("A", 2, "snlt", "2024-01-08");
    a.start = day("2024-01-10");
    let mut tasks = vec![a];
    forward_pass_on(&mut tasks, &week(), day("2024-06-03"));
    assert_eq!(text(tasks[0].start), "2024-01-08");
    assert_eq!(text(tasks[0].end), "2024-01-09");
}

#[test]
fn start_no_later_than_pulls_a_dependency_given_start_in() {
    let mut b = constrained("B", 1, "snlt", "2024-01-03");
    b.dependencies = vec![link("A", "FS", 0)];
    let mut tasks = vec![started("A", 5, "2024-01-01"), b];
    forward_pass_on(&mut tasks, &week(), day("2024-06-03"));
    assert_eq!(text(tasks[1].start), "2024-01-03");
}

#[test]
fn start_no_later_than_does_not_move_a_start_later() {
    let mut a = constrained("A", 2, "snlt", "2024-01-15");
    a.start = day("2024-01-10");
    let mut tasks = vec![a];
    forward_pass_on(&mut tasks, &week(), day("2024-06-03"));
    assert_eq!(text(tasks[0].start), "2024-01-10");
}

#[test]
fn start_no_later_than_without_any_start_leaves_the_task_unscheduled() {
    let mut tasks = vec![constrained("A", 2, "snlt", "2024-01-15")];
    forward_pass_on(&mut tasks, &week(), day("2024-06-03"));
    assert_eq!(tasks[0].start, None);
    assert_eq!(tasks[0].end, None);
}

#[test]
fn finish_no_earlier_than_implies_a_start() {
    let mut tasks = vec![constrained("A", 3, "fnet", "2024-01-10")];
    forward_pass_on(&mut tasks, &week(), day("2024-06-03"));
    assert_eq!(text(tasks[0].start), "2024-01-08");
    assert_eq!(text(tasks[0].end), "2024-01-10");
}

#[test]
fn finish_no_earlier_than_yields_to_a_later_start() {
    let mut a = constrained("A", 3, "fnet", "2024-01-10");
    a.dependencies = vec![link("P", "FS", 0)];
    let mut tasks = vec![started("P", 1, "2024-01-12"), a];
    forward_pass_on(&mut tasks, &week(), day("2024-06-03"));
    assert_eq!(text(tasks[1].start), "2024-01-15");
}

#[test]
fn finish_no_later_than_does_not_move_the_start() {
    let mut a = constrained("A", 5, "fnlt", "2024-01-02");
    a.start = day("2024-01-01");
    let mut tasks = vec![a];
    run(&mut tasks);
    assert_eq!(text(tasks[0].start), "2024-01-01");
    assert_eq!(text(tasks[0].end), "2024-01-05");
    assert_eq!(text(tasks[0].late_finish), "2024-01-02");
    assert_eq!(text(tasks[0].late_start), "2023-12-27");
    assert_eq!(tasks[0].total_float_days, Some(-3));
    assert_eq!(tasks[0].free_float_days, Some(-3));
    assert_eq!(tasks[0].is_critical, Some(true));
}

#[test]
fn must_finish_on_fixes_finish_and_start() {
    let mut a = constrained("A", 3, "mfo", "2024-01-10");
    a.start = day("2024-02-01");
    a.dependencies = vec![link("P", "FS", 0)];
    let mut tasks = vec![started("P", 1, "2024-03-01"), a];
    forward_pass_on(&mut tasks, &week(), day("2024-06-03"));
    assert_eq!(text(tasks[1].start), "2024-01-08");
    assert_eq!(text(tasks[1].end), "2024-01-10");
}

#[test]
fn constraint_without_date_gives_no_start() {
    let mut a = task("A", 2);
    a.constraint_type = String::from("mfo");
    let mut tasks = vec![a];
    forward_pass_on(&mut tasks, &week(), day("2024-06-03"));
    assert_eq!(tasks[0].start, None);
}

#[test]
fn forward_pass_leaves_tasks_with_children_alone() {
    let mut parent = started("P", 9, "2020-01-01");
    parent.dependencies = vec![link("X", "FS", 0)];
    let mut tasks = vec![parent, child("C", 2, "P"), started("X", 1, "2024-01-01")];
    forward_pass_on(&mut tasks, &week(), day("2024-06-03"));
    assert_eq!(text(tasks[0].start), "2020-01-01");
    assert_eq!(tasks[0].end, None);
    assert_eq!(tasks[0].duration, 9);
}

#[test]
fn chain_converges_within_the_limit() {
    let mut tasks = vec![
        following("D", 1, "C", "FS", 0),
        following("C", 1, "B", "FS", 0),
        following("B", 1, "A", "FS", 0),
        started("A", 1, "2024-01-01"),
    ];
    let limit = forward_pass_on(&mut tasks, &week(), day("2024-06-03"));
    assert!(!limit);
    assert_eq!(text(tasks[2].start), "2024-01-02");
    assert_eq!(text(tasks[1].start), "2024-01-03");
    assert_eq!(text(tasks[0].start), "2024-01-04");
}

#[test]
fn dependency_cycle_reaches_the_round_limit() {
    let mut tasks = vec![following("A", 1, "B", "FS", 0), following("B", 1, "A", "FS", 0)];
    let limit = forward_pass_on(&mut tasks, &week(), day("2024-06-03"));
    assert!(limit);
    assert!(tasks[0].start.is_some());
    assert!(tasks[1].start.is_some());
}

#[test]
fn rollup_takes_only_children_with_both_dates() {
    let mut early = child("C1", 1, "P");
    early.start = day("2023-12-01");
    let mut late = child("C2", 1, "P");
    late.end = day("2024-12-31");
    let mut full = child("C3", 2, "P");
    full.start = day("2024-01-02");
    full.end = day("2024-01-03");
    let mut tasks = vec![task("P", 7), early, late, full];
    calculate_parent_dates(&mut tasks, &week());
    assert_eq!(text(tasks[0].start), "2024-01-02");
    assert_eq!(text(tasks[0].end), "2024-01-03");
    assert_eq!(tasks[0].duration, 2);
}

#[test]
fn rollup_without_dated_children_keeps_the_dates() {
    let mut parent = started("P", 7, "2024-01-01");
    parent.end = day("2024-01-05");
    let mut tasks = vec![parent, child("C", 1, "P")];
    calculate_parent_dates(&mut tasks, &week());
    assert_eq!(text(tasks[0].start), "2024-01-01");
    assert_eq!(text(tasks[0].end), "2024-01-05");
    assert_eq!(tasks[0].duration, 5);
}

#[test]
fn rollup_works_deepest_first() {
    let mut leaf_one = child("L1", 2, "M");
    leaf_one.start = day("2024-01-03");
    leaf_one.end = day("2024-01-04");
    let mut leaf_two = child("L2", 1, "R");
    leaf_two.start = day("2024-01-01");
    leaf_two.end = day("2024-01-01");
    let mut tasks = vec![task("R", 1), child("M", 1, "R"), leaf_one, leaf_two];
    calculate_parent_dates(&mut tasks, &week());
    assert_eq!(text(tasks[1].start), "2024-01-03");
    assert_eq!(text(tasks[1].end), "2024-01-04");
    assert_eq!(tasks[1].duration, 2);
    assert_eq!(text(tasks[0].start), "2024-01-01");
    assert_eq!(text(tasks[0].end), "2024-01-04");
    assert_eq!(tasks[0].duration, 4);
}

#[test]
fn backward_start_to_start() {
    let mut tasks = vec![started("A", 5, "2024-01-01"), following("B", 3, "A", "SS", 2)];
    run(&mut tasks);
    assert_eq!(text(tasks[1].late_finish), "2024-01-05");
    assert_eq!(text(tasks[1].late_start), "2024-01-03");
    assert_eq!(text(tasks[0].late_finish), "2024-01-05");
    assert_eq!(text(tasks[0].late_start), "2024-01-01");
    assert_eq!(tasks[0].total_float_days, Some(0));
    assert_eq!(tasks[0].free_float_days, Some(0));
}

#[test]
fn backward_finish_to_finish() {
    let mut tasks = vec![started("A", 3, "2024-01-01"), following("B", 2, "A", "FF", 1)];
    run(&mut tasks);
    assert_eq!(text(tasks[1].late_finish), "2024-01-04");
    assert_eq!(text(tasks[1].late_start), "2024-01-03");
    assert_eq!(text(tasks[0].late_finish), "2024-01-03");
    assert_eq!(text(tasks[0].late_start), "2024-01-01");
    assert_eq!(tasks[0].total_float_days, Some(0));
    assert_eq!(tasks[0].free_float_days, Some(0));
}

#[test]
fn backward_start_to_finish() {
    let mut tasks = vec![started("A", 3, "2024-01-01"), following("B", 2, "A", "SF", 2)];
    run(&mut tasks);
    assert_eq!(text(tasks[1].start), "2024-01-02");
    assert_eq!(text(tasks[1].end), "2024-01-03");
    assert_eq!(text(tasks[1].late_start), "2024-01-02");
    assert_eq!(text(tasks[0].late_finish), "2023-12-29");
    assert_eq!(text(tasks[0].late_start), "2023-12-27");
    assert_eq!(tasks[0].total_float_days, Some(-3));
    assert_eq!(tasks[0].is_critical, Some(true));
}

#[test]
fn backward_finish_to_start_with_lag() {
    let mut tasks = vec![
        started("A", 2, "2024-01-01"),
        following("B", 1, "A", "FS", 2),
        started("C", 10, "2024-01-01"),
    ];
    run(&mut tasks);
    assert_eq!(text(tasks[1].start), "2024-01-05");
    assert_eq!(text(tasks[2].end), "2024-01-12");
    assert_eq!(text(tasks[1].late_finish), "2024-01-12");
    assert_eq!(text(tasks[1].late_start), "2024-01-12");
    assert_eq!(text(tasks[0].late_finish), "2024-01-09");
    assert_eq!(text(tasks[0].late_start), "2024-01-08");
    assert_eq!(tasks[0].total_float_days, Some(5));
    assert_eq!(tasks[0].free_float_days, Some(0));
    assert_eq!(tasks[1].total_float_days, Some(5));
    assert_eq!(tasks[1].free_float_days, Some(5));
    assert_eq!(tasks[2].total_float_days, Some(0));
}

#[test]
fn earliest_successor_decides_the_late_finish() {
    let mut tasks = vec![
        started("A", 1, "2024-01-01"),
        following("B", 1, "A", "FS", 0),
        following("C", 1, "A", "FS", 3),
        started("D", 10, "2024-01-01"),
    ];
    run(&mut tasks);
    assert_eq!(text(tasks[1].late_start), "2024-01-12");
    assert_eq!(text(tasks[2].late_start), "2024-01-12");
    assert_eq!(text(tasks[0].late_finish), "2024-01-08");
}

#[test]
fn backward_pass_without_any_finish_computes_nothing() {
    let mut tasks = vec![task("A", 1), task("B", 2)];
    let map = build_successor_map(&tasks);
    let limit = backward_pass(&mut tasks, &week(), &map);
    assert!(!limit);
    assert_eq!(tasks[0].late_finish, None);
    assert_eq!(tasks[0].late_start, None);
    assert_eq!(tasks[1].late_finish, None);
}

#[test]
fn backward_pass_passes_over_successors_with_children() {
    let mut parent = following("P", 1, "A", "FS", 0);
    parent.start = day("2024-01-02");
    parent.end = day("2024-01-03");
    let mut kid = child("K", 2, "P");
    kid.start = day("2024-01-02");
    kid.end = day("2024-01-03");
    let mut a = started("A", 1, "2024-01-01");
    a.end = day("2024-01-01");
    a.late_finish = day("2024-02-01");
    let mut tasks = vec![a, parent, kid];
    let map = build_successor_map(&tasks);
    backward_pass(&mut tasks, &week(), &map);
    assert_eq!(text(tasks[0].late_finish), "2024-02-01");
    assert_eq!(text(tasks[0].late_start), "2024-02-01");
    assert_eq!(tasks[1].late_finish, None);
    assert_eq!(text(tasks[2].late_finish), "2024-01-03");
}

#[test]
fn finish_no_later_than_keeps_the_backward_pass_turning() {
    let mut a = constrained("A", 1, "fnlt", "2024-01-02");
    a.start = day("2024-01-04");
    a.end = day("2024-01-04");
    let mut tasks = vec![a];
    let map = build_successor_map(&tasks);
    let limit = backward_pass(&mut tasks, &week(), &map);
    assert!(limit);
    assert_eq!(text(tasks[0].late_finish), "2024-01-02");
    assert_eq!(text(tasks[0].late_start), "2024-01-02");
}

#[test]
fn backward_pass_converges_on_a_chain() {
    let mut tasks = vec![started("A", 2, "2024-01-01"), following("B", 1, "A", "FS", 0)];
    forward_pass_on(&mut tasks, &week(), day("2024-06-03"));
    let map = build_successor_map(&tasks);
    let limit = backward_pass(&mut tasks, &week(), &map);
    assert!(!limit);
    assert_eq!(text(tasks[0].late_finish), "2024-01-02");
}

#[test]
fn free_float_for_each_link_type() {
    let mut tasks = vec![
        started("A", 2, "2024-01-01"),
        following("FS", 1, "A", "FS", 0),
        following("SS", 1, "A", "SS", 1),
        following("FF", 1, "A", "FF", 1),
        following("SF", 1, "A", "SF", 1),
        started("Z", 10, "2024-01-01"),
    ];
    run(&mut tasks);
    assert_eq!(text(tasks[0].end), "2024-01-02");
    assert_eq!(text(tasks[1].start), "2024-01-03");
    assert_eq!(text(tasks[2].start), "2024-01-02");
    assert_eq!(text(tasks[3].start), "2024-01-03");
    assert_eq!(text(tasks[4].start), "2024-01-02");
    let map = build_successor_map(&tasks);
    let mut only = |kind: &str| -> Option<i32> {
        let mut copy = tasks.clone();
        let mut links = map.clone();
        links[0].retain(|entry| entry.id == kind);
        calculate_float(&mut copy, &week(), &links);
        copy[0].free_float_days
    };
    assert_eq!(only("FS"), Some(0));
    assert_eq!(only("SS"), Some(0));
    assert_eq!(only("FF"), Some(0));
    assert_eq!(only("SF"), Some(0));
}

#[test]
fn free_float_is_the_least_slack_capped_by_total_float() {
    let mut a = started("A", 1, "2024-01-01");
    a.end = day("2024-01-01");
    a.late_start = day("2024-01-03");
    let mut near = following("N", 1, "A", "FS", 0);
    near.start = day("2024-01-05");
    near.end = day("2024-01-05");
    let mut far = following("F", 1, "A", "FS", 0);
    far.start = day("2024-01-10");
    far.end = day("2024-01-10");
    let mut tasks = vec![a, near, far];
    let map = build_successor_map(&tasks);
    calculate_float(&mut tasks, &week(), &map);
    assert_eq!(tasks[0].total_float_days, Some(2));
    assert_eq!(tasks[0].free_float_days, Some(2));
    tasks[0].late_start = day("2024-01-12");
    calculate_float(&mut tasks, &week(), &map);
    assert_eq!(tasks[0].total_float_days, Some(9));
    assert_eq!(tasks[0].free_float_days, Some(3));
}

#[test]
fn free_float_is_not_negative_while_total_float_is_not() {
    let mut a = started("A", 1, "2024-01-05");
    a.end = day("2024-01-05");
    a.late_start = day("2024-01-08");
    let mut b = following("B", 1, "A", "FS", 0);
    b.start = day("2024-01-02");
    b.end = day("2024-01-02");
    let mut tasks = vec![a, b];
    let map = build_successor_map(&tasks);
    calculate_float(&mut tasks, &week(), &map);
    assert_eq!(tasks[0].total_float_days, Some(1));
    assert_eq!(tasks[0].free_float_days, Some(0));
}

#[test]
fn float_without_late_start_is_zero() {
    let mut tasks = vec![started("A", 1, "2024-01-05"), task("B", 1)];
    let map = build_successor_map(&tasks);
    calculate_float(&mut tasks, &week(), &map);
    assert_eq!(tasks[0].total_float_days, Some(0));
    assert_eq!(tasks[0].free_float_days, Some(0));
    assert_eq!(tasks[1].total_float_days, Some(0));
}

#[test]
fn float_of_a_task_with_children_is_the_least_of_theirs() {
    let mut one = child("C1", 1, "P");
    one.start = day("2024-01-01");
    one.late_start = day("2024-01-05");
    let mut two = child("C2", 1, "P");
    two.start = day("2024-01-01");
    two.late_start = day("2024-01-03");
    let mut parent = task("P", 1);
    parent.total_float_days = Some(99);
    parent.free_float_days = Some(99);
    let mut tasks = vec![parent, one, two, task("Q", 1), child("E", 1, "Q")];
    let map = build_successor_map(&tasks);
    calculate_float(&mut tasks, &week(), &map);
    assert_eq!(tasks[1].total_float_days, Some(4));
    assert_eq!(tasks[2].total_float_days, Some(2));
    assert_eq!(tasks[0].total_float_days, Some(2));
    assert_eq!(tasks[0].free_float_days, Some(0));
    assert_eq!(tasks[3].total_float_days, Some(0));
}

#[test]
fn critical_marks_follow_the_float() {
    let mut none = task("N", 1);
    none.total_float_days = None;
    let mut zero = task("Z", 1);
    zero.total_float_days = Some(0);
    let mut minus = task("M", 1);
    minus.total_float_days = Some(-2);
    let mut plus = task("P", 1);
    plus.total_float_days = Some(1);
    let mut tasks = vec![none, zero, minus, plus];
    mark_critical_path(&mut tasks);
    assert_eq!(tasks[0].is_critical, Some(false));
    assert_eq!(tasks[1].is_critical, Some(true));
    assert_eq!(tasks[2].is_critical, Some(true));
    assert_eq!(tasks[3].is_critical, Some(false));
}

#[test]
fn task_with_children_is_critical_with_a_critical_child() {
    let mut hot = child("H", 1, "M");
    hot.total_float_days = Some(0);
    let mut cool = child("C", 1, "R");
    cool.total_float_days = Some(4);
    let mut calm = child("K", 1, "Q");
    calm.total_float_days = Some(1);
    let mut root = task("R", 1);
    root.total_float_days = Some(7);
    let mut quiet = task("Q", 1);
    quiet.total_float_days = Some(0);
    quiet.is_critical = Some(true);
    let mut tasks = vec![root, child("M", 1, "R"), hot, cool, quiet, calm];
    mark_critical_path(&mut tasks);
    assert_eq!(tasks[2].is_critical, Some(true));
    assert_eq!(tasks[3].is_critical, Some(false));
    assert_eq!(tasks[1].is_critical, Some(true));
    assert_eq!(tasks[0].is_critical, Some(true));
    assert_eq!(tasks[5].is_critical, Some(false));
    assert_eq!(tasks[4].is_critical, Some(false));
}

#[test]
fn figures_count_tasks_without_children_only() {
    let mut tasks = vec![
        task("P", 1),
        {
            let mut c = child("C1", 3, "P");
            c.start = day("2024-01-01");
            c
        },
        {
            let mut c = child("C2", 2, "P");
            c.dependencies = vec![link("C1", "FS", 0)];
            c
        },
        started("S", 1, "2024-01-02"),
    ];
    let result = calculate_on(&mut tasks, &week(), day("2024-06-03"));
    assert_eq!(result.stats.task_count, 4);
    assert_eq!(result.stats.critical_count, 2);
    assert_eq!(text(result.stats.project_end), "2024-01-05");
    assert_eq!(result.stats.duration, 5);
    assert_eq!(tasks[0].is_critical, Some(true));
    assert_eq!(tasks[3].is_critical, Some(false));
    assert_eq!(tasks[3].total_float_days, Some(3));
}

#[test]
fn run_carries_other_fields_through() {
    let mut a = started("A", 2, "2024-01-01");
    a.name = String::from("Excavation");
    a.notes = String::from("keep");
    a.progress = 40;
    a.level = 3;
    a.row_type = Some(String::from("task"));
    a.scheduling_mode = String::from("Manual");
    a.collapsed = Some(true);
    a.actual_start = Some(String::from("2024-01-02"));
    a.actual_finish = Some(String::from("x"));
    a.remaining_duration = Some(1);
    a.baseline_start = Some(String::from("2023-12-01"));
    a.baseline_finish = Some(String::from("2023-12-05"));
    a.baseline_duration = Some(4);
    a.wbs = Some(String::from("1.2"));
    a.trade_partner_ids = Some(vec![String::from("tp-1"), String::from("tp-2")]);
    a.sort_key = String::from("a0");
    let before = a.clone();
    let mut tasks = vec![a];
    let result = calculate_on(&mut tasks, &week(), day("2024-06-03"));
    let mut expected = before;
    expected.end = day("2024-01-02");
    expected.late_start = day("2024-01-01");
    expected.late_finish = day("2024-01-02");
    expected.total_float_days = Some(0);
    expected.free_float_days = Some(0);
    expected.is_critical = Some(true);
    assert_eq!(tasks[0], expected);
    assert_eq!(result.tasks[0], expected);
}

#[test]
fn slack_toward_a_successor_for_each_link_type() {
    let slack = |kind: &str| -> Option<i32> {
        let mut a = started("A", 2, "2024-01-01");
        a.end = day("2024-01-02");
        a.late_start = day("2024-01-31");
        let mut s = following("S", 3, "A", kind, 1);
        s.start = day("2024-01-10");
        s.end = day("2024-01-12");
        let mut tasks = vec![a, s];
        let map = build_successor_map(&tasks);
        calculate_float(&mut tasks, &week(), &map);
        assert_eq!(tasks[0].total_float_days, Some(22));
        tasks[0].free_float_days
    };
    assert_eq!(slack("FS"), Some(4));
    assert_eq!(slack("SS"), Some(6));
    assert_eq!(slack("FF"), Some(7));
    assert_eq!(slack("SF"), Some(8));
    assert_eq!(slack("other"), Some(4));
}

#[test]
fn hierarchy_check_accepts_a_forest() {
    let tasks = vec![task("root", 1), child("mid", 1, "root"), child("leaf", 1, "mid"), task(
        "alone",
        1,
    )];
    assert!(check_hierarchy(&tasks));
    assert!(check_hierarchy(&[]));
    assert!(check_hierarchy(&[task("only", 1)]));
}

#[test]
fn hierarchy_check_refuses_shared_identifiers() {
    let tasks = vec![task("a", 1), task("b", 1), task("a", 2)];
    assert!(!check_hierarchy(&tasks));
}

#[test]
fn hierarchy_check_refuses_a_task_that_is_its_own_ancestor() {
    assert!(!check_hierarchy(&[child("a", 1, "a")]));
    assert!(!check_hierarchy(&[child("a", 1, "b"), child("b", 1, "a")]));
    assert!(!check_hierarchy(&[task("r", 1), child("a", 1, "c"), child("b", 1, "a"), child(
        "c",
        1,
        "b",
    )]));
}

#[test]
fn hierarchy_check_refuses_a_full_chain_under_an_unknown_parent() {
    assert!(!check_hierarchy(&[child("a", 1, "missing")]));
    assert!(check_hierarchy(&[child("a", 1, "missing"), task("b", 1)]));
}
