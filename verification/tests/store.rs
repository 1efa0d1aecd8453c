use task_manager::date::Date;
use task_manager::store::TaskManager;
use task_manager::task::Task;

fn ids(store: &TaskManager) -> Vec<usize> {
    store.tasks.iter().map(|task| task.id).collect()
}

fn day(year: i32, month: u32, day: u32) -> Date {
    Date::from_ymd(year, month, day).expect("a day of the calendar")
}

#[test]
fn new_store_is_empty_and_starts_at_one() {
    let store = TaskManager::new();
    assert!(store.tasks.is_empty());
    assert_eq!(store.next_id, 1);
}

#[test]
fn load_without_saved_store_gives_fresh_store() {
    let store = TaskManager::load(None);
    assert!(store.tasks.is_empty());
    assert_eq!(store.next_id, 1);
    assert_eq!(store, TaskManager::new());
}

#[test]
fn load_hands_back_the_saved_store() {
    let mut saved = TaskManager::new();
    saved.create("Buy milk".to_string(), "home", "2024-01-01");
    saved.create("Call mum".to_string(), "", "");
    saved.delete_task(1);
    let copy = saved.clone();
    let store = TaskManager::load(Some(saved));
    assert_eq!(store, copy);
    assert_eq!(store.next_id, 3);
    assert_eq!(ids(&store), vec![2]);
}

#[test]
fn create_complete_delete_scenario() {
    let mut store = TaskManager::new();
    {
        let task = store.create("Buy milk".to_string(), "Home, Errand", "2024-01-01");
        assert_eq!(task.id, 1);
        assert_eq!(task.description, "Buy milk");
        assert!(!task.completed);
        assert_eq!(task.tags, vec!["home".to_string(), "errand".to_string()]);
        assert_eq!(task.due_date, Some(day(2024, 1, 1)));
    }
    {
        let task = store.complete_task(1).expect("task 1 exists");
        assert!(task.completed);
        assert_eq!(task.id, 1);
    }
    let removed = store.delete_task(1).expect("task 1 exists");
    assert_eq!(removed.id, 1);
    assert!(removed.completed);
    assert!(store.tasks.is_empty());
    let next = store.create("Walk the dog".to_string(), "", "");
    assert_eq!(next.id, 2);
}

#[test]
fn created_ids_are_strictly_increasing() {
    let mut store = TaskManager::new();
    let mut last = 0;
    for n in 0..20 {
        let id = store.create(format!("task {}", n), "a,b", "").id;
        assert!(id > last);
        assert_eq!(id, n + 1);
        last = id;
    }
    assert_eq!(store.next_id, 21);
    assert_eq!(ids(&store), (1..=20).collect::<Vec<usize>>());
}

#[test]
fn deleted_id_is_never_reassigned() {
    let mut store = TaskManager::new();
    store.create("one".to_string(), "", "");
    store.create("two".to_string(), "", "");
    store.create("three".to_string(), "", "");
    assert!(store.delete_task(3).is_some());
    assert_eq!(store.next_id, 4);
    assert_eq!(store.create("four".to_string(), "", "").id, 4);
    assert!(store.delete_task(1).is_some());
    assert_eq!(store.create("five".to_string(), "", "").id, 5);
    assert_eq!(ids(&store), vec![2, 4, 5]);
    assert!(store.find(1).is_none());
    assert!(store.find(3).is_none());
}

#[test]
fn add_task_takes_the_contents_as_given() {
    let mut store = TaskManager::new();
    let tags = vec!["x".to_string(), "y".to_string()];
    let task = store.add_task("Plain".to_string(), tags.clone(), Some(day(2030, 12, 31)));
    assert_eq!(
        *task,
        Task {
            id: 1,
            description: "Plain".to_string(),
            completed: false,
            tags,
            due_date: Some(day(2030, 12, 31)),
        }
    );
    assert_eq!(store.next_id, 2);
    assert_eq!(store.tasks.len(), 1);
}

#[test]
fn complete_unknown_id_leaves_store_unchanged() {
    let mut store = TaskManager::new();
    store.create("one".to_string(), "a", "2024-05-05");
    store.create("two".to_string(), "b", "");
    let before = store.clone();
    assert!(store.complete_task(99).is_none());
    assert_eq!(store, before);
    assert!(store.complete_task(0).is_none());
    assert_eq!(store, before);
}

#[test]
fn complete_is_idempotent() {
    let mut store = TaskManager::new();
    store.create("one".to_string(), "", "");
    assert!(store.complete_task(1).expect("exists").completed);
    let once = store.clone();
    assert!(store.complete_task(1).expect("exists").completed);
    assert_eq!(store, once);
}

#[test]
fn complete_touches_only_the_named_task() {
    let mut store = TaskManager::new();
    store.create("one".to_string(), "", "");
    store.create("two".to_string(), "", "");
    store.create("three".to_string(), "", "");
    store.complete_task(2);
    let done: Vec<bool> = store.tasks.iter().map(|task| task.completed).collect();
    assert_eq!(done, vec![false, true, false]);
}

#[test]
fn delete_unknown_id_leaves_store_unchanged() {
    let mut store = TaskManager::new();
    store.create("one".to_string(), "", "");
    let before = store.clone();
    assert!(store.delete_task(2).is_none());
    assert_eq!(store, before);
}

#[test]
fn delete_keeps_the_order_of_the_others() {
    let mut store = TaskManager::new();
    for name in ["a", "b", "c", "d"] {
        store.create(name.to_string(), "", "");
    }
    let removed = store.delete_task(2).expect("exists");
    assert_eq!(removed.description, "b");
    assert_eq!(ids(&store), vec![1, 3, 4]);
    let names: Vec<&str> = store.tasks.iter().map(|task| task.description.as_str()).collect();
    assert_eq!(names, vec!["a", "c", "d"]);
    assert_eq!(store.next_id, 5);
}

#[test]
fn delete_removes_the_first_of_equal_ids() {
    let twin = |description: &str| Task {
        id: 7,
        description: description.to_string(),
        completed: false,
        tags: Vec::new(),
        due_date: None,
    };
    let mut store = TaskManager { tasks: vec![twin("first"), twin("second")], next_id: 8 };
    assert_eq!(store.position(7), Some(0));
    assert_eq!(store.find(7).expect("exists").description, "first");
    assert_eq!(store.delete_task(7).expect("exists").description, "first");
    assert_eq!(store.tasks.len(), 1);
    assert_eq!(store.tasks[0].description, "second");
}

#[test]
fn edit_replaces_description_tags_and_due_date() {
    let mut store = TaskManager::new();
    store.create("Buy milk".to_string(), "home", "2024-01-01");
    store.complete_task(1);
    {
        let task = store
            .edit(1, "Buy oat milk".to_string(), " Shop ,URGENT", "2024-02-29")
            .expect("exists");
        assert_eq!(task.id, 1);
        assert_eq!(task.description, "Buy oat milk");
        assert_eq!(task.tags, vec!["shop".to_string(), "urgent".to_string()]);
        assert_eq!(task.due_date, Some(day(2024, 2, 29)));
        assert!(task.completed);
    }
    assert_eq!(store.next_id, 2);
    assert_eq!(store.tasks.len(), 1);
}

#[test]
fn edit_with_empty_due_date_clears_it() {
    let mut store = TaskManager::new();
    store.create("Buy milk".to_string(), "home", "2024-01-01");
    assert!(store.tasks[0].due_date.is_some());
    let task = store.edit(1, "Buy milk".to_string(), "home", "").expect("exists");
    assert_eq!(task.due_date, None);
    assert_eq!(task.tags, vec!["home".to_string()]);
}

#[test]
fn edit_with_unreadable_due_date_clears_it() {
    let mut store = TaskManager::new();
    store.create("Buy milk".to_string(), "", "2024-01-01");
    let task = store.edit(1, "Buy milk".to_string(), "", "tomorrow").expect("exists");
    assert_eq!(task.due_date, None);
}

#[test]
fn edit_unknown_id_leaves_store_unchanged() {
    let mut store = TaskManager::new();
    store.create("one".to_string(), "a", "2024-05-05");
    let before = store.clone();
    assert!(store.edit(5, "x".to_string(), "y", "2024-01-01").is_none());
    assert_eq!(store, before);
    assert!(store.edit_task(5, "x".to_string(), vec!["y".to_string()], None).is_none());
    assert_eq!(store, before);
}

#[test]
fn edit_task_takes_the_contents_as_given() {
    let mut store = TaskManager::new();
    store.create("one".to_string(), "a", "");
    store.create("two".to_string(), "b", "");
    let task = store
        .edit_task(2, "deux".to_string(), vec!["fr".to_string()], Some(day(2025, 7, 14)))
        .expect("exists");
    assert_eq!(task.id, 2);
    assert_eq!(task.description, "deux");
    assert_eq!(task.tags, vec!["fr".to_string()]);
    assert_eq!(task.due_date, Some(day(2025, 7, 14)));
    assert_eq!(store.tasks[0].description, "one");
}

#[test]
fn find_and_position_agree() {
    let mut store = TaskManager::new();
    store.create("one".to_string(), "", "");
    store.create("two".to_string(), "", "");
    store.delete_task(1);
    assert_eq!(store.position(2), Some(0));
    assert_eq!(store.position(1), None);
    assert_eq!(store.find(2).expect("exists").description, "two");
    assert!(store.find(1).is_none());
}

#[test]
fn create_drops_an_unreadable_due_date() {
    let mut store = TaskManager::new();
    assert_eq!(store.create("a".to_string(), "", "2023-02-29").due_date, None);
    assert_eq!(store.create("b".to_string(), "", "soon").due_date, None);
    assert_eq!(store.create("c".to_string(), "", "2024-02-29").due_date, Some(day(2024, 2, 29)));
}
