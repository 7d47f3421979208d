use rust_api_hub::handlers::{create_task, get_tasks, set_priority, PriorityPayload};
use rust_api_hub::query::{paginate, parse_sort, query_tasks, sort_tasks, ListParams, SortKey};
use rust_api_hub::store::TaskStore;
use rust_api_hub::task::{Priority, Task, TaskCreate};

fn app_state() -> TaskStore {
    TaskStore::new()
}

fn make(repo: &mut TaskStore, title: &str) -> Task {
    let payload = TaskCreate { title: title.to_string(), description: "d".into() };
    create_task(repo, &payload).unwrap()
}

fn params(page: Option<usize>, per_page: Option<usize>, sort: Option<&str>, completed: Option<bool>) -> ListParams {
    ListParams { completed, page, per_page, sort: sort.map(|s| s.to_string()) }
}

#[test]
fn pagination_returns_correct_page() {
    let mut repo = app_state();
    for i in 0..25 {
        make(&mut repo, &format!("t{}", i));
    }
    let resp = get_tasks(&repo, &params(Some(2), Some(10), None, None));
    assert_eq!(resp.items.len(), 10);
    assert_eq!(resp.page, 2);
    assert_eq!(resp.per_page, 10);
    assert_eq!(resp.total, 25);
}

#[test]
fn per_page_limits_results_and_caps() {
    let mut repo = app_state();
    for i in 0..5 {
        make(&mut repo, &format!("t{}", i));
    }
    let resp = get_tasks(&repo, &params(Some(1), Some(1000), None, None));
    assert_eq!(resp.items.len(), 5);
    assert_eq!(resp.per_page, 100);
    assert_eq!(resp.total, 5);
}

#[test]
fn sorting_by_created_at_desc() {
    let mut repo = app_state();
    for i in 0..5 {
        make(&mut repo, &format!("t{}", i));
    }
    let resp = get_tasks(&repo, &params(Some(1), Some(5), Some("created_at:desc"), None));
    assert_eq!(resp.items[0].title, "t4");
}

#[test]
fn sort_by_priority_orders_correctly() {
    let mut repo = app_state();
    let priorities = vec!["low", "critical", "medium", "high"];
    for (i, prio) in priorities.iter().enumerate() {
        let task = make(&mut repo, &format!("task{}", i));
        let payload = PriorityPayload { priority: prio.to_string() };
        let _ = set_priority(&mut repo, &uuid::Uuid::from_u128(task.id).to_string(), &payload);
    }
    let resp = get_tasks(&repo, &params(None, None, Some("priority:asc"), None));
    let items = resp.items;
    assert_eq!(items.len(), 4);
    assert_eq!(items[0].priority.as_str(), "low");
    assert_eq!(items[1].priority.as_str(), "medium");
    assert_eq!(items[2].priority.as_str(), "high");
    assert_eq!(items[3].priority.as_str(), "critical");
    let resp_desc = get_tasks(&repo, &params(None, None, Some("priority:desc"), None));
    let items_desc = resp_desc.items;
    assert_eq!(items_desc[0].priority.as_str(), "critical");
    assert_eq!(items_desc[1].priority.as_str(), "high");
    assert_eq!(items_desc[2].priority.as_str(), "medium");
    assert_eq!(items_desc[3].priority.as_str(), "low");
}

fn numbered(n: usize) -> Vec<Task> {
    (0..n).map(|i| Task::with_id(i as u128 + 1, &format!("t{}", i), "d", i as i64)).collect()
}

#[test]
fn page_size_follows_formula() {
    for (total, page, per) in [(25usize, 3usize, 10usize), (25, 1, 10), (25, 4, 10), (0, 1, 20), (7, 2, 5), (100, 1, 100)] {
        let r = paginate(numbered(total), Some(page), Some(per));
        let expected = std::cmp::max(0i64, std::cmp::min(per as i64, total as i64 - (per * (page - 1)) as i64));
        assert_eq!(r.items.len() as i64, expected);
        assert_eq!(r.total, total);
    }
}

#[test]
fn pagination_clamps_and_defaults() {
    let r = paginate(numbered(30), Some(0), Some(0));
    assert_eq!(r.page, 1);
    assert_eq!(r.per_page, 1);
    assert_eq!(r.items.len(), 1);
    let r = paginate(numbered(30), None, None);
    assert_eq!(r.page, 1);
    assert_eq!(r.per_page, 20);
    assert_eq!(r.items.len(), 20);
    let r = paginate(numbered(30), Some(usize::MAX), Some(100));
    assert_eq!(r.items.len(), 0);
    assert_eq!(r.total, 30);
    let r = paginate(numbered(25), Some(3), Some(10));
    assert_eq!(r.items.iter().map(|t| t.id).collect::<Vec<_>>(), vec![21, 22, 23, 24, 25]);
}

#[test]
fn descending_is_ascending_reversed_and_newest_first() {
    let items = vec![
        Task::with_id(1, "a", "d", 30),
        Task::with_id(2, "b", "d", 10),
        Task::with_id(3, "c", "d", 20),
        Task::with_id(4, "e", "d", 10),
    ];
    let asc: Vec<u128> = sort_tasks(items.clone(), SortKey::CreatedAt, false).iter().map(|t| t.id).collect();
    assert_eq!(asc, vec![2, 4, 3, 1]);
    let desc: Vec<u128> = sort_tasks(items, SortKey::CreatedAt, true).iter().map(|t| t.id).collect();
    assert_eq!(desc[0], 1);
    let mut back = asc.clone();
    back.reverse();
    assert_eq!(desc, back);
}

#[test]
fn sort_directives() {
    assert_eq!(parse_sort(&None), (SortKey::CreatedAt, false));
    assert_eq!(parse_sort(&Some("created_at".into())), (SortKey::CreatedAt, false));
    assert_eq!(parse_sort(&Some("created_at:desc".into())), (SortKey::CreatedAt, true));
    assert_eq!(parse_sort(&Some("title:desc".into())), (SortKey::CreatedAt, false));
    assert_eq!(parse_sort(&Some("priority:desc".into())), (SortKey::Priority, true));
    assert_eq!(parse_sort(&Some("priority".into())), (SortKey::Priority, false));
}

#[test]
fn completion_filter_applies_after_sort_and_before_paging() {
    let mut items = Vec::new();
    for i in 0..6u128 {
        let mut t = Task::with_id(i + 1, &format!("t{}", i), "d", 100 - i as i64);
        t.completed = i % 2 == 0;
        items.push(t);
    }
    let r = query_tasks(items, &params(Some(1), Some(2), Some("created_at"), Some(true)));
    assert_eq!(r.total, 3);
    assert_eq!(r.items.iter().map(|t| t.id).collect::<Vec<_>>(), vec![5, 3]);
    let _ = Priority::Low;
}
