use rust_api_hub::repository::TaskRepository;
use rust_api_hub::task::{Task, TaskCreate, TaskUpdate};

#[test]
fn repo_insert_and_get() {
    let repo = TaskRepository::new();
    let t = Task::new_full("a", "b");
    let id = t.id;
    repo.insert(t.clone());
    let got = repo.get(id).expect("should exist");
    assert_eq!(got.title, "a");
}

#[test]
fn repo_list_and_remove() {
    let repo = TaskRepository::new();
    let t1 = Task::new_full("1", "1");
    let t2 = Task::new_full("2", "2");
    repo.insert(t1.clone());
    repo.insert(t2.clone());
    let l = repo.list();
    assert_eq!(l.len(), 2);
    assert!(repo.remove(t1.id));
    let l2 = repo.list();
    assert_eq!(l2.len(), 1);
}

#[test]
fn repo_update_works() {
    let repo = TaskRepository::new();
    let t = Task::new_full("x", "y");
    let id = t.id;
    repo.insert(t.clone());
    let upd = TaskUpdate {
        title: Some("Z".to_string()),
        description: None,
        completed: Some(true),
    };
    let res = repo.update(id, upd);
    assert!(res.is_some());
    let got = repo.get(id).unwrap();
    assert_eq!(got.title, "Z");
    assert!(got.completed);
}

#[test]
fn repo_nonexistent_update_none() {
    let repo = TaskRepository::new();
    let res = repo.update(
        uuid::Uuid::new_v4().as_u128(),
        TaskUpdate {
            title: None,
            description: None,
            completed: None,
        },
    );
    assert!(res.is_none());
}

#[test]
fn insert_replaces_same_identifier() {
    let repo = TaskRepository::new();
    let t = Task::new_full("first", "d");
    repo.insert(t.clone());
    let mut again = t.clone();
    again.title = "second".to_string();
    repo.insert(again);
    assert_eq!(repo.count(), 1);
    assert_eq!(repo.get(t.id).unwrap().title, "second");
}

#[test]
fn created_identifiers_are_distinct_and_all_listed() {
    let repo = TaskRepository::new();
    let mut ids = Vec::new();
    for i in 0..50 {
        let t = repo.create(&TaskCreate { title: format!("t{}", i), description: "d".into() });
        ids.push(t.id);
    }
    let mut sorted = ids.clone();
    sorted.sort();
    sorted.dedup();
    assert_eq!(sorted.len(), 50);
    let listed = repo.list();
    assert_eq!(listed.len(), 50);
    for id in ids {
        assert!(listed.iter().any(|t| t.id == id));
    }
}

#[test]
fn insert_many_keeps_order_and_remove_many_counts() {
    let repo = TaskRepository::new();
    let creates = vec![
        TaskCreate { title: "a".into(), description: "1".into() },
        TaskCreate { title: "b".into(), description: "2".into() },
        TaskCreate { title: "c".into(), description: "3".into() },
    ];
    let made = repo.insert_many(&creates);
    assert_eq!(made.iter().map(|t| t.title.as_str()).collect::<Vec<_>>(), vec!["a", "b", "c"]);
    let gone = repo.remove_many(&[made[0].id, made[2].id, 12345]);
    assert_eq!(gone, 2);
    let left = repo.list();
    assert_eq!(left.len(), 1);
    assert_eq!(left[0].title, "b");
}

#[test]
fn sorted_listing_descending_is_ascending_reversed() {
    let repo = TaskRepository::new();
    repo.insert(Task::with_id(1, "old", "d", 10));
    repo.insert(Task::with_id(2, "new", "d", 30));
    repo.insert(Task::with_id(3, "mid", "d", 20));
    let asc: Vec<u128> = repo.list_sorted_by_created_at(false).iter().map(|t| t.id).collect();
    let mut desc: Vec<u128> = repo.list_sorted_by_created_at(true).iter().map(|t| t.id).collect();
    assert_eq!(asc, vec![1, 3, 2]);
    desc.reverse();
    assert_eq!(asc, desc);
}
