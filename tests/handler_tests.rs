use rust_api_hub::handlers::{
    bulk_delete_tasks, count_tasks, create_task, delete_task, get_task, update_task, ApiError,
};
use rust_api_hub::store::TaskStore;
use rust_api_hub::task::{TaskCreate, TaskUpdate};

fn app_state() -> TaskStore {
    TaskStore::new()
}

fn id_text(id: u128) -> String {
    uuid::Uuid::from_u128(id).to_string()
}

fn create(repo: &mut TaskStore, title: &str) -> u128 {
    let payload = TaskCreate { title: title.to_string(), description: "d".into() };
    create_task(repo, &payload).unwrap().id
}

#[test]
fn create_and_get_task_flow() {
    let mut repo = app_state();
    let payload = TaskCreate {
        title: "t1".into(),
        description: "d1".into(),
    };
    let created = create_task(&mut repo, &payload);
    assert!(created.is_ok());
    let items = repo.list();
    assert_eq!(items.len(), 1);
    assert_eq!(items[0].title, "t1");
    let id = id_text(items[0].id);
    assert!(get_task(&repo, &id).is_ok());
    assert_eq!(get_task(&repo, "not-a-uuid"), Err(ApiError::InvalidId));
}

#[test]
fn update_nonexistent_returns_not_found() {
    let mut repo = app_state();
    let fake = uuid::Uuid::new_v4().to_string();
    let payload = TaskUpdate {
        title: None,
        description: None,
        completed: Some(true),
    };
    assert_eq!(update_task(&mut repo, &fake, payload), Err(ApiError::NotFound));
}

#[test]
fn delete_nonexistent_returns_not_found() {
    let mut repo = app_state();
    let fake = uuid::Uuid::new_v4().to_string();
    assert_eq!(delete_task(&mut repo, &fake), Err(ApiError::NotFound));
}

#[test]
fn create_rejects_blank_title() {
    let mut repo = app_state();
    let payload = TaskCreate { title: "   ".into(), description: "d".into() };
    assert_eq!(
        create_task(&mut repo, &payload),
        Err(ApiError::Validation("title must not be empty".to_string()))
    );
    assert_eq!(count_tasks(&repo), 0);
}

#[test]
fn update_and_delete_existing() {
    let mut repo = app_state();
    let id = id_text(create(&mut repo, "before"));
    let upd = TaskUpdate { title: Some("after".into()), description: None, completed: Some(true) };
    let t = update_task(&mut repo, &id, upd).unwrap();
    assert_eq!(t.title, "after");
    assert!(t.completed);
    assert_eq!(t.description, "d");
    assert_eq!(delete_task(&mut repo, &id), Ok(()));
    assert_eq!(get_task(&repo, &id), Err(ApiError::NotFound));
    assert_eq!(delete_task(&mut repo, "zzz"), Err(ApiError::InvalidId));
}

#[test]
fn count_empty_repo_is_zero() {
    let mut repo = app_state();
    assert_eq!(count_tasks(&repo), 0);
}

#[test]
fn count_after_one_insert_is_one() {
    let mut repo = app_state();
    let payload = TaskCreate {
        title: "t1".into(),
        description: "d1".into(),
    };
    assert!(create_task(&mut repo, &payload).is_ok());
    assert_eq!(count_tasks(&repo), 1);
}

#[test]
fn count_after_multiple_inserts_is_n() {
    let mut repo = app_state();
    for i in 0..5 {
        let payload = TaskCreate {
            title: format!("t{}", i),
            description: "d".into(),
        };
        assert!(create_task(&mut repo, &payload).is_ok());
    }
    assert_eq!(count_tasks(&repo), 5);
}

#[test]
fn bulk_delete_none_returns_zero() {
    let mut repo = app_state();
    assert_eq!(bulk_delete_tasks(&mut repo, &Vec::<String>::new()), 0);
}

#[test]
fn bulk_delete_some_removes_only_specified() {
    let mut repo = app_state();
    let mut ids = Vec::new();
    for i in 0..3 {
        ids.push(id_text(create(&mut repo, &format!("t{}", i))));
    }
    let delete_ids = vec![ids[0].clone(), ids[1].clone()];
    assert_eq!(bulk_delete_tasks(&mut repo, &delete_ids), 2);
    let remaining = repo.list();
    assert_eq!(remaining.len(), 1);
}

#[test]
fn bulk_delete_all_removes_everything() {
    let mut repo = app_state();
    let mut ids = Vec::new();
    for i in 0..5 {
        ids.push(id_text(create(&mut repo, &format!("t{}", i))));
    }
    assert_eq!(bulk_delete_tasks(&mut repo, &ids), 5);
    assert_eq!(repo.list().len(), 0);
}

#[test]
fn bulk_delete_skips_malformed_and_unknown_ids() {
    let mut repo = app_state();
    let a = id_text(create(&mut repo, "a"));
    let _b = create(&mut repo, "b");
    let unknown = uuid::Uuid::new_v4().to_string();
    let ids = vec![a.clone(), "not-an-id".to_string(), unknown, String::new(), a];
    assert_eq!(bulk_delete_tasks(&mut repo, &ids), 1);
    assert_eq!(count_tasks(&repo), 1);
    assert_eq!(repo.list()[0].title, "b");
}

#[test]
fn created_at_is_present_and_valid_format() {
    let mut repo = app_state();
    let payload = TaskCreate {
        title: "t1".into(),
        description: "d1".into(),
    };
    let created = create_task(&mut repo, &payload).unwrap();
    let ca = chrono::DateTime::from_timestamp_micros(created.created_at).unwrap().to_rfc3339();
    let parsed = chrono::DateTime::parse_from_rfc3339(&ca).expect("created_at should be RFC3339");
    assert!(parsed.timestamp() > 1_000_000_000);
}

#[test]
fn created_at_retained_in_repository_and_serialized() {
    let mut repo = app_state();
    let payload = TaskCreate {
        title: "t1".into(),
        description: "d1".into(),
    };
    let created = create_task(&mut repo, &payload).unwrap();
    let stored = repo.get(created.id).expect("task should be present");
    let a = chrono::DateTime::from_timestamp_micros(stored.created_at).unwrap().to_rfc3339();
    let b = chrono::DateTime::from_timestamp_micros(created.created_at).unwrap().to_rfc3339();
    assert_eq!(a, b);
    let _parsed: chrono::DateTime<chrono::FixedOffset> = chrono::DateTime::parse_from_rfc3339(&a).unwrap();
}
