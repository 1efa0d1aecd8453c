use task_manager::date::Date;
use task_manager::store::TaskManager;
use task_manager::task::{found_among, tags_contain, Status, Task};

fn task(completed: bool, due_date: Option<Date>) -> Task {
    Task { id: 1, description: "Pay rent".to_string(), completed, tags: Vec::new(), due_date }
}

fn sample() -> TaskManager {
    let mut store = TaskManager::new();
    store.create("Buy milk".to_string(), "home, urgent", "");
    store.create("URGENT: call the bank".to_string(), "money", "");
    store.create("Water the plants".to_string(), "home", "");
    store.create("Read".to_string(), "urgently", "");
    store.create("Fix bike".to_string(), "Urgent", "");
    store
}

fn ids(found: &[&Task]) -> Vec<usize> {
    found.iter().map(|task| task.id).collect()
}

#[test]
fn overdue_task_is_overdue_until_it_is_done() {
    let today = Date { year: 2024, month: 5, day: 10 };
    let due = Date { year: 2024, month: 5, day: 9 };
    assert_eq!(task(false, Some(due)).status(&today), Status::Overdue);
    assert_eq!(task(true, Some(due)).status(&today), Status::Done);
}

#[test]
fn status_of_a_task_due_today() {
    let today = Date { year: 2024, month: 5, day: 10 };
    assert_eq!(task(false, Some(today)).status(&today), Status::DueToday);
    assert_eq!(task(true, Some(today)).status(&today), Status::Done);
}

#[test]
fn status_of_a_task_due_later_or_never() {
    let today = Date { year: 2024, month: 5, day: 10 };
    let later = Date { year: 2024, month: 5, day: 11 };
    assert_eq!(task(false, Some(later)).status(&today), Status::Pending);
    assert_eq!(task(false, None).status(&today), Status::Pending);
    assert_eq!(task(true, None).status(&today), Status::Done);
    assert_eq!(task(true, Some(later)).status(&today), Status::Done);
}

#[test]
fn status_compares_years_and_months_before_days() {
    let today = Date { year: 2024, month: 5, day: 10 };
    let last_year = Date { year: 2023, month: 12, day: 31 };
    let next_month = Date { year: 2024, month: 6, day: 1 };
    assert_eq!(task(false, Some(last_year)).status(&today), Status::Overdue);
    assert_eq!(task(false, Some(next_month)).status(&today), Status::Pending);
}

#[test]
fn status_of_a_due_date_alone() {
    let today = Date { year: 2024, month: 5, day: 10 };
    let on =
        |year: i32, month: u32, day: u32| Status::of_due_date(&Date { year, month, day }, &today);
    assert_eq!(on(2024, 5, 9), Status::Overdue);
    assert_eq!(on(2024, 5, 10), Status::DueToday);
    assert_eq!(on(2024, 5, 11), Status::Pending);
    assert_eq!(on(2025, 1, 1), Status::Pending);
    assert_eq!(on(2024, 4, 30), Status::Overdue);
}

#[test]
fn tags_contain_wants_the_whole_tag() {
    let tags = vec!["home".to_string(), "urgent".to_string()];
    assert!(tags_contain(&tags, "home"));
    assert!(tags_contain(&tags, "urgent"));
    assert!(!tags_contain(&tags, "urge"));
    assert!(!tags_contain(&tags, "Home"));
    assert!(!tags_contain(&tags, ""));
    assert!(!tags_contain(&Vec::new(), "home"));
}

#[test]
fn found_among_looks_at_tags_and_description() {
    let tags = vec!["home".to_string()];
    assert!(found_among("home", &tags, "buy milk"));
    assert!(found_among("milk", &tags, "buy milk"));
    assert!(found_among("y m", &tags, "buy milk"));
    assert!(found_among("", &tags, "buy milk"));
    assert!(found_among("", &tags, ""));
    assert!(!found_among("hom", &tags, "buy milk"));
    assert!(!found_among("milky", &tags, "buy milk"));
    assert!(!found_among("buy milk!", &tags, "buy milk"));
}

#[test]
fn has_tag_and_matches_on_a_task() {
    let mut store = TaskManager::new();
    let task = store.create("Buy Milk".to_string(), "Home", "");
    assert!(task.has_tag("home"));
    assert!(!task.has_tag("Home"));
    assert!(task.found_by("milk"));
    assert!(!task.found_by("MILK"));
    assert!(task.matches("MILK"));
    assert!(task.matches("HOME"));
    assert!(!task.matches("work"));
}

#[test]
fn query_without_filter_lists_every_task_in_order() {
    let store = sample();
    assert_eq!(ids(&store.query(None)), vec![1, 2, 3, 4, 5]);
    assert!(TaskManager::new().query(None).is_empty());
}

#[test]
fn query_urgent_finds_tag_or_description() {
    let store = sample();
    assert_eq!(ids(&store.query(Some("urgent"))), vec![1, 2, 5]);
}

#[test]
fn query_ignores_the_case_of_the_filter() {
    let store = sample();
    assert_eq!(ids(&store.query(Some("URGENT"))), vec![1, 2, 5]);
    assert_eq!(ids(&store.query(Some("Home"))), vec![1, 3]);
}

#[test]
fn query_matches_tags_whole_and_descriptions_in_part() {
    let store = sample();
    assert_eq!(ids(&store.query(Some("urgently"))), vec![4]);
    assert_eq!(ids(&store.query(Some("bank"))), vec![2]);
    assert_eq!(ids(&store.query(Some("hom"))), Vec::<usize>::new());
    assert_eq!(ids(&store.query(Some("nothing"))), Vec::<usize>::new());
}

#[test]
fn query_with_empty_filter_lists_every_task() {
    let store = sample();
    assert_eq!(ids(&store.query(Some(""))), vec![1, 2, 3, 4, 5]);
}

#[test]
fn query_does_not_change_the_store() {
    let store = sample();
    let before = store.clone();
    store.query(Some("urgent"));
    store.query(None);
    assert_eq!(store, before);
}

#[test]
fn list_tasks_gives_each_task_its_status() {
    let mut store = TaskManager::new();
    store.create("late".to_string(), "bills", "2024-05-09");
    store.create("now".to_string(), "bills", "2024-05-10");
    store.create("later".to_string(), "", "2024-05-11");
    store.create("whenever".to_string(), "bills", "");
    store.create("done".to_string(), "bills", "2024-01-01");
    store.complete_task(5);
    let today = Date { year: 2024, month: 5, day: 10 };
    let all: Vec<(usize, Status)> =
        store.list_tasks(None, &today).iter().map(|(task, status)| (task.id, *status)).collect();
    assert_eq!(
        all,
        vec![
            (1, Status::Overdue),
            (2, Status::DueToday),
            (3, Status::Pending),
            (4, Status::Pending),
            (5, Status::Done),
        ]
    );
    let bills: Vec<(usize, Status)> = store
        .list_tasks(Some("BILLS"), &today)
        .iter()
        .map(|(task, status)| (task.id, *status))
        .collect();
    assert_eq!(
        bills,
        vec![(1, Status::Overdue), (2, Status::DueToday), (4, Status::Pending), (5, Status::Done)]
    );
}
