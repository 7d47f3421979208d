use rust_api_hub::handlers::{create_task, get_stats, set_tags, update_task, TagsPayload};
use rust_api_hub::store::TaskStore;
use rust_api_hub::stats::compute_stats;
use rust_api_hub::task::{Task, TaskCreate, TaskUpdate};

fn repo() -> TaskStore {
    TaskStore::new()
}

fn make(repo: &mut TaskStore, title: &str) -> Task {
    let payload = TaskCreate { title: title.to_string(), description: "d".into() };
    create_task(repo, &payload).unwrap()
}

fn id_text(id: u128) -> String {
    uuid::Uuid::from_u128(id).to_string()
}

#[test]
fn stats_empty_repo_returns_zeros() {
    let mut repo = repo();
    let resp = get_stats(&repo);
    assert_eq!(resp.total, 0);
    assert_eq!(resp.completed, 0);
    assert_eq!(resp.incomplete, 0);
    assert_eq!(resp.tag_distribution.len(), 0);
    assert!(resp.oldest_created_at.is_none());
    assert!(resp.newest_created_at.is_none());
}

#[test]
fn stats_mixed_completed_counts_correct() {
    let mut repo = repo();
    for i in 0..5 {
        let task = make(&mut repo, &format!("task{}", i));
        if i < 3 {
            let upd = TaskUpdate { title: None, description: None, completed: Some(true) };
            let _ = update_task(&mut repo, &id_text(task.id), upd);
        }
    }
    let resp = get_stats(&repo);
    assert_eq!(resp.total, 5);
    assert_eq!(resp.completed, 3);
    assert_eq!(resp.incomplete, 2);
    assert!(resp.oldest_created_at.is_some());
    assert!(resp.newest_created_at.is_some());
}

#[test]
fn stats_tag_distribution_sorted_by_frequency() {
    let mut repo = repo();
    let tasks_tags = vec![vec!["a", "b"], vec!["a", "c"], vec!["b", "c"], vec!["a"]];
    for (i, tags) in tasks_tags.iter().enumerate() {
        let task = make(&mut repo, &format!("t{}", i));
        let payload = TagsPayload { tags: tags.iter().map(|s| s.to_string()).collect() };
        let _ = set_tags(&mut repo, &id_text(task.id), &payload);
    }
    let resp = get_stats(&repo);
    let dist = resp.tag_distribution;
    assert_eq!(dist.len(), 3);
    assert_eq!(dist[0].tag, "a");
    assert_eq!(dist[0].count, 3);
    assert_eq!(dist[1].tag, "b");
    assert_eq!(dist[1].count, 2);
    assert_eq!(dist[2].tag, "c");
    assert_eq!(dist[2].count, 2);
}

#[test]
fn stats_keep_only_top_ten_tags() {
    let mut items = Vec::new();
    for i in 0..12u128 {
        let mut t = Task::with_id(i + 1, "t", "d", 50 + i as i64);
        // tag k is carried by tasks 0..=k, so tag k occurs k + 1 times
        for k in i..12 {
            t.tags.push(format!("tag{:02}", k));
        }
        items.push(t);
    }
    let s = compute_stats(&items);
    assert_eq!(s.tag_distribution.len(), 10);
    assert_eq!(s.tag_distribution[0].tag, "tag11");
    assert_eq!(s.tag_distribution[0].count, 12);
    assert_eq!(s.tag_distribution[9].tag, "tag02");
    assert_eq!(s.oldest_created_at, Some(50));
    assert_eq!(s.newest_created_at, Some(61));
}

#[test]
fn stats_ties_break_alphabetically() {
    let mut a = Task::with_id(1, "t", "d", 5);
    a.tags = vec!["zeta".into(), "alpha".into(), "mid".into()];
    let s = compute_stats(&vec![a]);
    let names: Vec<&str> = s.tag_distribution.iter().map(|e| e.tag.as_str()).collect();
    assert_eq!(names, vec!["alpha", "mid", "zeta"]);
}
