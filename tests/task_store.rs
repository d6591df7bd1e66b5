use todo_app::menu::{MenuChoice, choice_from_trimmed, parse_choice};
use todo_app::tasks::{Task, TaskManager, parse_line};

fn lines(items: &[&str]) -> Vec<String> {
    items.iter().map(|s| s.to_string()).collect()
}

fn pairs(manager: &TaskManager) -> Vec<(String, bool)> {
    manager.tasks.iter().map(|t| (t.description.clone(), t.completed)).collect()
}

#[test]
fn new_task_is_open() {
    let t = Task::new("Water plants".to_string());
    assert_eq!(t.description, "Water plants");
    assert!(!t.completed);
}

#[test]
fn new_store_is_empty() {
    let m = TaskManager::new();
    assert!(m.tasks.is_empty());
    assert!(m.list_tasks().is_empty());
    assert!(m.save_lines().is_empty());
}

#[test]
fn add_then_complete_lists_markers() {
    let mut m = TaskManager::new();
    m.add_task("Buy milk".to_string());
    m.add_task("Write report".to_string());
    assert_eq!(m.list_tasks(), vec!["[ ] Buy milk", "[ ] Write report"]);
    m.complete_task(0);
    assert_eq!(m.list_tasks(), vec!["[x] Buy milk", "[ ] Write report"]);
}

#[test]
fn adds_are_listed_in_call_order() {
    let mut m = TaskManager::new();
    for d in ["one", "two", "", "four"] {
        m.add_task(d.to_string());
    }
    assert_eq!(m.list_tasks(), vec!["[ ] one", "[ ] two", "[ ] ", "[ ] four"]);
}

#[test]
fn complete_twice_is_idempotent() {
    let mut m = TaskManager::new();
    m.add_task("a".to_string());
    m.add_task("b".to_string());
    m.add_task("c".to_string());
    m.complete_task(1);
    m.complete_task(1);
    assert_eq!(
        pairs(&m),
        vec![("a".to_string(), false), ("b".to_string(), true), ("c".to_string(), false)]
    );
}

#[test]
fn complete_out_of_range_changes_nothing() {
    let mut m = TaskManager::new();
    m.complete_task(0);
    assert!(m.tasks.is_empty());
    m.add_task("a".to_string());
    m.complete_task(1);
    m.complete_task(usize::MAX);
    assert_eq!(pairs(&m), vec![("a".to_string(), false)]);
}

#[test]
fn save_lines_format() {
    let mut m = TaskManager::new();
    m.add_task("Buy milk".to_string());
    m.add_task("Write report".to_string());
    m.complete_task(1);
    assert_eq!(m.save_lines(), vec!["Buy milk|false", "Write report|true"]);
}

#[test]
fn save_then_load_reproduces_listing() {
    let mut m = TaskManager::new();
    m.add_task("Buy milk".to_string());
    m.add_task("Write report".to_string());
    m.add_task("".to_string());
    m.complete_task(0);
    let saved = m.save_lines();
    let mut fresh = TaskManager::new();
    fresh.load_lines(&saved);
    assert_eq!(fresh.list_tasks(), m.list_tasks());
    assert_eq!(pairs(&fresh), pairs(&m));
}

#[test]
fn load_replaces_existing_tasks() {
    let mut m = TaskManager::new();
    m.add_task("old".to_string());
    m.load_lines(&lines(&["new|true"]));
    assert_eq!(pairs(&m), vec![("new".to_string(), true)]);
    m.load_lines(&Vec::new());
    assert!(m.tasks.is_empty());
}

#[test]
fn load_skips_malformed_lines() {
    let mut m = TaskManager::new();
    m.load_lines(&lines(&["first|true", "no-delim-here", "a|b|c", "", "last|false"]));
    assert_eq!(
        pairs(&m),
        vec![("first".to_string(), true), ("last".to_string(), false)]
    );
}

#[test]
fn load_flag_other_than_true_is_open() {
    let mut m = TaskManager::new();
    m.load_lines(&lines(&["a|false", "b|TRUE", "c|1", "d|true ", "e|", "f|true"]));
    assert_eq!(
        pairs(&m),
        vec![
            ("a".to_string(), false),
            ("b".to_string(), false),
            ("c".to_string(), false),
            ("d".to_string(), false),
            ("e".to_string(), false),
            ("f".to_string(), true),
        ]
    );
}

#[test]
fn load_keeps_description_verbatim() {
    let t = parse_line("  spaced out |true").unwrap();
    assert_eq!(t.description, "  spaced out ");
    assert!(t.completed);
    let t = parse_line("|false").unwrap();
    assert_eq!(t.description, "");
    assert!(!t.completed);
    let t = parse_line("caf\u{e9} \u{2713}|true").unwrap();
    assert_eq!(t.description, "caf\u{e9} \u{2713}");
}

#[test]
fn parse_line_rejects_wrong_delimiter_count() {
    assert!(parse_line("no-delim-here").is_none());
    assert!(parse_line("a|b|c").is_none());
    assert!(parse_line("||").is_none());
    assert!(parse_line("").is_none());
}

#[test]
fn delimiter_in_description_is_not_round_tripped() {
    let mut m = TaskManager::new();
    m.add_task("a|b".to_string());
    let saved = m.save_lines();
    assert_eq!(saved, vec!["a|b|false"]);
    let mut fresh = TaskManager::new();
    fresh.load_lines(&saved);
    assert!(fresh.tasks.is_empty());
}

#[test]
fn menu_numbers_select_actions() {
    assert_eq!(MenuChoice::from_number(1), MenuChoice::AddTask);
    assert_eq!(MenuChoice::from_number(2), MenuChoice::CompleteTask);
    assert_eq!(MenuChoice::from_number(3), MenuChoice::ListTasks);
    assert_eq!(MenuChoice::from_number(4), MenuChoice::SaveTasks);
    assert_eq!(MenuChoice::from_number(5), MenuChoice::LoadTasks);
    assert_eq!(MenuChoice::from_number(6), MenuChoice::Exit);
    assert_eq!(MenuChoice::from_number(0), MenuChoice::Invalid);
    assert_eq!(MenuChoice::from_number(7), MenuChoice::Invalid);
}

#[test]
fn choice_from_trimmed_reads_numbers() {
    assert_eq!(choice_from_trimmed("3"), 3);
    assert_eq!(choice_from_trimmed("+5"), 5);
    assert_eq!(choice_from_trimmed("007"), 7);
    assert_eq!(choice_from_trimmed("4294967295"), 4294967295);
    assert_eq!(choice_from_trimmed("4294967296"), 0);
    assert_eq!(choice_from_trimmed("-1"), 0);
    assert_eq!(choice_from_trimmed("+"), 0);
    assert_eq!(choice_from_trimmed(""), 0);
    assert_eq!(choice_from_trimmed("two"), 0);
    assert_eq!(choice_from_trimmed(" 2"), 0);
}

#[test]
fn parse_choice_ignores_surrounding_space() {
    assert_eq!(parse_choice("  4\n"), 4);
    assert_eq!(parse_choice("\t6\r\n"), 6);
    assert_eq!(parse_choice("abc\n"), 0);
    assert_eq!(parse_choice("\n"), 0);
}
