use rust_api_hub::handlers::{
    create_task, get_priority, get_tags, get_tasks_by_priority, get_tasks_by_tag, set_priority,
    set_tags, ApiError, PriorityPayload, TagQuery, TagsPayload,
};
use rust_api_hub::store::TaskStore;
use rust_api_hub::tags::{normalize_tags, validate_tags};
use rust_api_hub::task::{Priority, Task, TaskCreate};

fn repo() -> TaskStore {
    TaskStore::new()
}

fn make(repo: &mut TaskStore, title: &str) -> Task {
    let payload = TaskCreate { title: title.to_string(), description: "d".into() };
    create_task(repo, &payload).unwrap()
}

fn id_text(id: u128) -> String {
    uuid::Uuid::from_u128(id).to_string()
}

fn strings(v: &[&str]) -> Vec<String> {
    v.iter().map(|s| s.to_string()).collect()
}

#[test]
fn set_and_get_tags_roundtrip() {
    let mut repo = repo();
    let task = make(&mut repo, "alpha");
    let tags_payload = TagsPayload { tags: strings(&["Feature", "Backend", "feature"]) };
    let updated = set_tags(&mut repo, &id_text(task.id), &tags_payload).unwrap();
    assert_eq!(updated.tags.len(), 2);
    let tags = get_tags(&repo, &id_text(task.id)).unwrap();
    assert_eq!(tags.len(), 2);
}

#[test]
fn search_by_tag_returns_only_matching() {
    let mut repo = repo();
    for name in ["t1", "t2"].iter() {
        let task = make(&mut repo, name);
        let tags = if *name == "t1" { strings(&["A", "B"]) } else { strings(&["B", "C"]) };
        let _ = set_tags(&mut repo, &id_text(task.id), &TagsPayload { tags });
    }
    let items = get_tasks_by_tag(&repo, &TagQuery { tag: "a".into() });
    assert_eq!(items.len(), 1);
    assert_eq!(items[0].title, "t1");
}

#[test]
fn invalid_tags_rejected() {
    let mut repo = repo();
    let task = make(&mut repo, "bad-tags");
    let tags_payload = TagsPayload { tags: vec!["valid".to_string(), "   ".to_string()] };
    match set_tags(&mut repo, &id_text(task.id), &tags_payload) {
        Err(ApiError::Validation(m)) => assert!(m.contains("empty")),
        other => panic!("expected a validation error, got {:?}", other),
    }
    assert!(get_tags(&repo, &id_text(task.id)).unwrap().is_empty());
}

#[test]
fn rejected_tags_leave_previous_tags() {
    let mut repo = repo();
    let task = make(&mut repo, "keep");
    let id = id_text(task.id);
    set_tags(&mut repo, &id, &TagsPayload { tags: strings(&["one"]) }).unwrap();
    assert!(set_tags(&mut repo, &id, &TagsPayload { tags: strings(&["valid", "   "]) }).is_err());
    assert_eq!(get_tags(&repo, &id).unwrap(), strings(&["one"]));
}

#[test]
fn normalization_example_and_idempotence() {
    let once = normalize_tags(&strings(&["Feature", "feature", "Backend"]));
    assert_eq!(once, strings(&["feature", "backend"]));
    let twice = normalize_tags(&once);
    assert_eq!(twice, once);
    let spaced = normalize_tags(&strings(&["  Ops ", "", "OPS", "   ", "dev"]));
    assert_eq!(spaced, strings(&["ops", "dev"]));
}

#[test]
fn tag_validation_reasons() {
    assert!(validate_tags(&strings(&["a", "b"])).is_ok());
    assert!(validate_tags(&[]).is_ok());
    assert_eq!(
        validate_tags(&strings(&["valid", "   "])),
        Err("tags must not contain empty entries".to_string())
    );
    let long = "x".repeat(65);
    assert_eq!(validate_tags(&[long]), Err("tag too long (max 64 chars)".to_string()));
    assert!(validate_tags(&["é".repeat(64)]).is_ok());
}

#[test]
fn tags_on_unknown_or_malformed_id() {
    let mut repo = repo();
    let payload = TagsPayload { tags: strings(&["a"]) };
    assert_eq!(set_tags(&mut repo, "nope", &payload), Err(ApiError::InvalidId));
    let unknown = uuid::Uuid::new_v4().to_string();
    assert_eq!(set_tags(&mut repo, &unknown, &payload), Err(ApiError::NotFound));
    assert_eq!(get_tags(&repo, &unknown), Err(ApiError::NotFound));
}

#[test]
fn set_and_get_priority_roundtrip() {
    let mut repo = repo();
    let task = make(&mut repo, "test task");
    assert_eq!(task.priority, Priority::Medium);
    let result = set_priority(&mut repo, &id_text(task.id), &PriorityPayload { priority: "high".into() });
    assert!(result.is_ok());
    let result = get_priority(&repo, &id_text(task.id));
    assert!(result.is_ok());
    assert_eq!(result.unwrap().as_str(), "high");
}

#[test]
fn search_by_priority_filters_correctly() {
    let mut repo = repo();
    let priorities = vec!["low", "medium", "high", "critical", "medium"];
    for (i, prio) in priorities.iter().enumerate() {
        let task = make(&mut repo, &format!("task{}", i));
        let _ = set_priority(&mut repo, &id_text(task.id), &PriorityPayload { priority: prio.to_string() });
    }
    let result = get_tasks_by_priority(&repo, "medium");
    assert!(result.is_ok());
    let tasks = result.unwrap();
    assert_eq!(tasks.len(), 2);
    for task in tasks {
        assert_eq!(task.priority, Priority::Medium);
    }
}

#[test]
fn invalid_priority_rejected() {
    let mut repo = repo();
    let task = make(&mut repo, "test");
    let result = set_priority(&mut repo, &id_text(task.id), &PriorityPayload { priority: "invalid".into() });
    assert!(result.is_err());
    match result {
        Err(ApiError::Validation(msg)) => assert!(msg.contains("invalid priority")),
        other => panic!("expected a validation error, got {:?}", other),
    }
    assert!(get_tasks_by_priority(&repo, "nope").is_err());
}
