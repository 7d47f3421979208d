use std::sync::Arc;

use rust_api_hub::repository::TaskRepository;
use rust_api_hub::task::TaskCreate;

#[test]
fn concurrent_creates_are_distinct_and_all_listed() {
    let runtime = tokio::runtime::Builder::new_multi_thread()
        .worker_threads(4)
        .build()
        .unwrap();
    let repo = Arc::new(TaskRepository::new());
    let ids: Vec<u128> = runtime.block_on(async {
        let mut handles = Vec::new();
        for i in 0..16 {
            let repo = Arc::clone(&repo);
            handles.push(tokio::task::spawn_blocking(move || {
                let mut mine = Vec::new();
                for j in 0..25 {
                    let payload = TaskCreate { title: format!("w{}-{}", i, j), description: "d".into() };
                    mine.push(repo.create(&payload).id);
                }
                mine
            }));
        }
        let mut all = Vec::new();
        for h in handles {
            all.extend(h.await.unwrap());
        }
        all
    });
    assert_eq!(ids.len(), 400);
    let mut distinct = ids.clone();
    distinct.sort();
    distinct.dedup();
    assert_eq!(distinct.len(), 400);
    assert_eq!(repo.count(), 400);
    let listed = repo.list();
    for id in ids {
        assert!(listed.iter().any(|t| t.id == id));
    }
}
