use rust_api_hub::task::{Priority, Task, TaskCreate, TaskUpdate};

#[test]
fn test_create_task_properties() {
    let t = Task::new_full("title1", "desc1");
    assert_eq!(t.title, "title1");
    assert_eq!(t.description, "desc1");
    assert_eq!(t.completed, false);
}

#[test]
fn test_apply_title_update() {
    let mut t = Task::new_full("a", "b");
    let upd = TaskUpdate {
        title: Some("AA".to_string()),
        description: None,
        completed: None,
    };
    let new = t.apply_update(upd);
    assert_eq!(new.title, "AA");
    assert_eq!(new.description, "b");
}

#[test]
fn test_apply_all_update() {
    let mut t = Task::new_full("x", "y");
    let upd = TaskUpdate {
        title: Some("X".to_string()),
        description: Some("Y".to_string()),
        completed: Some(true),
    };
    let new = t.apply_update(upd);
    assert_eq!(new.title, "X");
    assert_eq!(new.description, "Y");
    assert!(new.completed);
}

#[test]
fn test_task_equality_clone() {
    let t = Task::new_full("t", "d");
    let a = t.clone();
    assert_eq!(a, t);
}

#[test]
fn test_uuid_uniqueness() {
    let a = Task::new_full("1", "1");
    let b = Task::new_full("2", "2");
    assert_ne!(a.id, b.id);
}

#[test]
fn new_task_defaults() {
    let t = Task::new_full("t", "d");
    assert!(t.tags.is_empty());
    assert_eq!(t.priority, Priority::Medium);
    assert_eq!(t.created_at, t.updated_at);
    assert!(t.created_at > 1_000_000_000_000_000);
}

#[test]
fn empty_update_changes_only_modification_time() {
    let mut t = Task::new_full("keep", "same");
    let before = t.clone();
    let after = t.apply_update(TaskUpdate { title: None, description: None, completed: None });
    assert_eq!(after.id, before.id);
    assert_eq!(after.title, before.title);
    assert_eq!(after.description, before.description);
    assert_eq!(after.completed, before.completed);
    assert_eq!(after.created_at, before.created_at);
    assert_eq!(after.tags, before.tags);
    assert_eq!(after.priority, before.priority);
    assert!(after.updated_at >= before.updated_at);
}

#[test]
fn update_at_never_moves_time_backwards() {
    let mut t = Task::with_id(7, "a", "b", 100);
    let r = t.apply_update_at(TaskUpdate { title: None, description: None, completed: Some(true) }, 50);
    assert_eq!(r.updated_at, 100);
    assert!(r.completed);
    let r2 = t.apply_update_at(TaskUpdate { title: None, description: None, completed: None }, 300);
    assert_eq!(r2.updated_at, 300);
    assert_eq!(r2.created_at, 100);
}

#[test]
fn validate_rejects_blank_title() {
    let ok = TaskCreate { title: "x".into(), description: String::new() };
    assert!(ok.validate().is_ok());
    let blank = TaskCreate { title: " \t ".into(), description: "d".into() };
    assert_eq!(blank.validate(), Err("title must not be empty".to_string()));
    let empty = TaskCreate { title: String::new(), description: "d".into() };
    assert!(empty.validate().is_err());
}

#[test]
fn priority_parse_ignores_case_and_space() {
    assert_eq!(Priority::parse("  HIGH "), Ok(Priority::High));
    assert_eq!(Priority::parse("low"), Ok(Priority::Low));
    assert_eq!(Priority::parse("Medium"), Ok(Priority::Medium));
    assert_eq!(Priority::parse("critical"), Ok(Priority::Critical));
    assert_eq!(
        Priority::parse("urgent"),
        Err("invalid priority: 'urgent'. Valid values: low, medium, high, critical".to_string())
    );
}

#[test]
fn priority_sort_values_follow_order() {
    assert_eq!(Priority::Low.sort_value(), 1);
    assert_eq!(Priority::Medium.sort_value(), 2);
    assert_eq!(Priority::High.sort_value(), 3);
    assert_eq!(Priority::Critical.sort_value(), 4);
    assert_eq!(Priority::default(), Priority::Medium);
    assert_eq!(Priority::High.as_str(), "high");
    assert!(Priority::Low < Priority::Critical);
}
