use todo_cli::confirm::{self, Answer};
use todo_cli::listing;
use todo_cli::store::{self, DoneOutcome, Loaded};
use todo_cli::task::Task;

fn task(id: usize, desc: &str, done: bool) -> Task {
    Task { id, desc: desc.to_string(), done }
}

fn summary(tasks: &Vec<Task>) -> Vec<(usize, String, bool)> {
    tasks.iter().map(|t| (t.id, t.desc.clone(), t.done)).collect()
}

#[test]
fn adding_to_empty_store_numbers_from_one() {
    let mut tasks: Vec<Task> = Vec::new();
    assert_eq!(store::add(&mut tasks, "first".to_string()), Some(1));
    assert_eq!(store::add(&mut tasks, String::new()), Some(2));
    assert_eq!(store::add(&mut tasks, "  spaced out  ".to_string()), Some(3));
    assert_eq!(
        summary(&tasks),
        vec![
            (1, "first".to_string(), false),
            (2, String::new(), false),
            (3, "  spaced out  ".to_string(), false),
        ]
    );
}

#[test]
fn add_all_in_order() {
    let mut tasks: Vec<Task> = Vec::new();
    store::add_all(&mut tasks, &vec!["buy milk".to_string(), "call mom".to_string()]);
    assert_eq!(
        summary(&tasks),
        vec![(1, "buy milk".to_string(), false), (2, "call mom".to_string(), false)]
    );
}

#[test]
fn scenario_add_two_tasks() {
    let mut tasks: Vec<Task> = Vec::new();
    store::add(&mut tasks, "buy milk".to_string());
    store::add(&mut tasks, "call mom".to_string());
    assert_eq!(
        summary(&tasks),
        vec![(1, "buy milk".to_string(), false), (2, "call mom".to_string(), false)]
    );
}

#[test]
fn next_id_follows_largest_id() {
    let tasks = vec![task(4, "a", false), task(9, "b", true), task(2, "c", false)];
    assert_eq!(store::next_id(&tasks), Some(10));
    assert_eq!(store::next_id(&Vec::new()), Some(1));
}

#[test]
fn add_refuses_when_ids_are_exhausted() {
    let mut tasks = vec![task(usize::MAX, "last", false)];
    assert_eq!(store::next_id(&tasks), None);
    assert_eq!(store::add(&mut tasks, "more".to_string()), None);
    assert_eq!(summary(&tasks), vec![(usize::MAX, "last".to_string(), false)]);
}

#[test]
fn removed_id_is_not_reassigned() {
    let mut tasks = vec![task(1, "a", false), task(2, "b", false), task(3, "c", false)];
    assert_eq!(confirm::remove(&mut tasks, 2, "y\n"), Answer::Confirmed);
    assert_eq!(store::add(&mut tasks, "d".to_string()), Some(4));
    assert_eq!(
        summary(&tasks).iter().map(|t| t.0).collect::<Vec<usize>>(),
        vec![1, 3, 4]
    );
}

#[test]
fn removing_the_largest_id_lets_it_come_back() {
    let mut tasks = vec![task(1, "a", false), task(2, "b", false)];
    confirm::remove(&mut tasks, 2, "yes");
    assert_eq!(store::add(&mut tasks, "c".to_string()), Some(2));
    let mut none: Vec<Task> = vec![task(5, "x", true)];
    confirm::remove(&mut none, 5, "Y");
    assert_eq!(store::add(&mut none, "y".to_string()), Some(1));
}

#[test]
fn toggle_twice_restores() {
    let mut tasks = vec![task(1, "x", false), task(2, "y", true)];
    assert_eq!(store::done(&mut tasks, 2), DoneOutcome::MarkedNotDone);
    assert_eq!(store::done(&mut tasks, 2), DoneOutcome::MarkedDone);
    assert_eq!(summary(&tasks), vec![(1, "x".to_string(), false), (2, "y".to_string(), true)]);
}

#[test]
fn scenario_done_toggles() {
    let mut tasks = vec![task(1, "x", false)];
    assert_eq!(store::done(&mut tasks, 1), DoneOutcome::MarkedDone);
    assert!(tasks[0].done);
    assert_eq!(store::done(&mut tasks, 1), DoneOutcome::MarkedNotDone);
    assert!(!tasks[0].done);
}

#[test]
fn scenario_done_unknown_id() {
    let mut tasks = vec![task(1, "x", false)];
    assert_eq!(store::done(&mut tasks, 2), DoneOutcome::NotFound);
    assert_eq!(summary(&tasks), vec![(1, "x".to_string(), false)]);
}

#[test]
fn done_flips_only_first_duplicate() {
    let mut tasks = vec![task(3, "a", false), task(3, "b", false)];
    assert_eq!(store::done(&mut tasks, 3), DoneOutcome::MarkedDone);
    assert_eq!(summary(&tasks), vec![(3, "a".to_string(), true), (3, "b".to_string(), false)]);
}

#[test]
fn remove_task_drops_every_match() {
    let mut tasks = vec![task(3, "a", false), task(1, "b", false), task(3, "c", true)];
    store::remove_task(&mut tasks, 3);
    assert_eq!(summary(&tasks), vec![(1, "b".to_string(), false)]);
    store::remove_task(&mut tasks, 7);
    assert_eq!(summary(&tasks), vec![(1, "b".to_string(), false)]);
}

#[test]
fn remove_declined_or_invalid_keeps_store() {
    let mut tasks = vec![task(1, "a", false)];
    assert_eq!(confirm::remove(&mut tasks, 1, "\n"), Answer::Declined);
    assert_eq!(confirm::remove(&mut tasks, 1, "No"), Answer::Declined);
    assert_eq!(confirm::remove(&mut tasks, 1, "sure"), Answer::Invalid);
    assert_eq!(summary(&tasks), vec![(1, "a".to_string(), false)]);
}

#[test]
fn remove_of_unknown_id_after_confirming() {
    let mut tasks = vec![task(1, "a", false)];
    assert_eq!(confirm::remove(&mut tasks, 9, "y"), Answer::Confirmed);
    assert_eq!(summary(&tasks), vec![(1, "a".to_string(), false)]);
}

#[test]
fn purge_answers() {
    let mut tasks = vec![task(1, "a", false), task(2, "b", true)];
    assert_eq!(confirm::purge(&mut tasks, ""), Answer::Declined);
    assert_eq!(confirm::purge(&mut tasks, "n"), Answer::Declined);
    assert_eq!(confirm::purge(&mut tasks, "whatever"), Answer::Invalid);
    assert_eq!(tasks.len(), 2);
    assert_eq!(confirm::purge(&mut tasks, "  YES \r\n"), Answer::Confirmed);
    assert!(tasks.is_empty());
}

#[test]
fn answers_are_trimmed_and_lowered() {
    assert_eq!(confirm::read_answer(" Yes \n"), Answer::Confirmed);
    assert_eq!(confirm::read_answer("\tY"), Answer::Confirmed);
    assert_eq!(confirm::read_answer("NO\n"), Answer::Declined);
    assert_eq!(confirm::read_answer("   \n"), Answer::Declined);
    assert_eq!(confirm::read_answer("yess"), Answer::Invalid);
    assert_eq!(confirm::classify("Y"), Answer::Invalid);
    assert_eq!(confirm::classify("y"), Answer::Confirmed);
    assert_eq!(confirm::classify(""), Answer::Declined);
}

#[test]
fn starting_store_outcomes() {
    let saved = vec![task(1, "a", false)];
    let r = store::starting_store(Loaded::Tasks(saved)).unwrap();
    assert_eq!(summary(&r), vec![(1, "a".to_string(), false)]);
    assert!(store::starting_store(Loaded::Missing).unwrap().is_empty());
    assert!(store::starting_store(Loaded::Malformed).is_none());
}

#[test]
fn display_order_by_id() {
    let tasks = vec![task(3, "c", true), task(1, "a", false), task(2, "b", true)];
    assert_eq!(listing::display_order(&tasks, false), vec![1, 2, 0]);
}

#[test]
fn display_order_by_status() {
    let tasks = vec![
        task(5, "e", true),
        task(1, "a", true),
        task(4, "d", false),
        task(2, "b", false),
    ];
    assert_eq!(listing::display_order(&tasks, true), vec![3, 2, 1, 0]);
    assert_eq!(listing::display_order(&tasks, false), vec![1, 3, 2, 0]);
}

#[test]
fn display_order_keeps_position_for_equal_ids() {
    let tasks = vec![task(2, "b", false), task(1, "x", false), task(1, "y", false)];
    assert_eq!(listing::display_order(&tasks, false), vec![1, 2, 0]);
}

#[test]
fn scenario_list_empty_store() {
    let lines = listing::list(&Vec::new(), false);
    assert_eq!(lines, vec!["No tasks yet.".to_string()]);
    let lines = listing::list(&Vec::new(), true);
    assert_eq!(lines, vec!["No tasks yet.".to_string()]);
}

#[test]
fn wrap_short_description_is_padded() {
    assert_eq!(listing::wrap("buy milk"), format!("buy milk{}", " ".repeat(22)));
    assert_eq!(listing::wrap(""), " ".repeat(30));
    let exact = "a".repeat(30);
    assert_eq!(listing::wrap(&exact), exact);
}

#[test]
fn scenario_wrap_sixty_five_characters() {
    let desc: String = (0..65).map(|i| (b'a' + (i % 26) as u8) as char).collect();
    let out = listing::wrap(&desc);
    let lines: Vec<&str> = out.split('\n').collect();
    assert_eq!(lines.len(), 3);
    assert_eq!(lines[0], &desc[0..30]);
    assert_eq!(lines[1], format!("     {}", &desc[30..60]));
    assert_eq!(lines[2], format!("     {}{}", &desc[60..65], " ".repeat(25)));
}

#[test]
fn wrap_thirty_one_characters() {
    let desc = "b".repeat(31);
    assert_eq!(
        listing::wrap(&desc),
        format!("{}\n     b{}", "b".repeat(30), " ".repeat(29))
    );
}

#[test]
fn row_layout() {
    let t = task(7, "buy milk", false);
    assert_eq!(listing::row(&t), format!("7    buy milk{} :(", " ".repeat(22)));
    let t = task(12345, "x", true);
    assert_eq!(listing::row(&t), format!("12345 x{} :)", " ".repeat(29)));
}

#[test]
fn list_rows_in_display_order() {
    let tasks = vec![task(2, "second", true), task(1, "first", false)];
    let lines = listing::list(&tasks, false);
    assert_eq!(
        lines,
        vec![
            format!("1    first{} :(", " ".repeat(25)),
            format!("2    second{} :)", " ".repeat(24)),
        ]
    );
}
