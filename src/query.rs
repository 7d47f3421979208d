//! The query engine: pure functions over a snapshot of tasks.

use vstd::prelude::*;
use crate::store::views;
use crate::task::{Priority, Task, TaskView};
use crate::text::{ends_with, eq_ignore_ascii, is_prefix, is_suffix, lower_of, lowercase, same_ignoring_ascii_case, starts_with};

verus! {

/// What a list is ordered by.
#[derive(Clone, Copy, Debug, PartialEq, Eq, Structural)]
pub enum SortKey {
    CreatedAt,
    Priority,
}

/// The value a task is ordered by.
pub open spec fn key_of(t: TaskView, k: SortKey) -> int {
    match k {
        SortKey::CreatedAt => t.created_at as int,
        SortKey::Priority => t.priority.rank(),
    }
}

/// `s` with `x` placed after every entry whose key is not above its own.
pub open spec fn insert_sorted(s: Seq<TaskView>, x: TaskView, k: SortKey) -> Seq<TaskView>
    decreases s.len(),
{
    if s.len() == 0 {
        seq![x]
    } else if key_of(s.last(), k) <= key_of(x, k) {
        s.push(x)
    } else {
        insert_sorted(s.drop_last(), x, k).push(s.last())
    }
}

/// `s` in ascending key order; entries with equal keys keep their relative order.
pub open spec fn sorted_by(s: Seq<TaskView>, k: SortKey) -> Seq<TaskView>
    decreases s.len(),
{
    if s.len() == 0 {
        s
    } else {
        insert_sorted(sorted_by(s.drop_last(), k), s.last(), k)
    }
}

/// `s` in the requested order: ascending, or the ascending order reversed.
pub open spec fn ordered(s: Seq<TaskView>, k: SortKey, descending: bool) -> Seq<TaskView> {
    if descending {
        sorted_by(s, k).reverse()
    } else {
        sorted_by(s, k)
    }
}

/// Keys never go down along `s`.
pub open spec fn ascending(s: Seq<TaskView>, k: SortKey) -> bool {
    forall|i: int, j: int| 0 <= i <= j < s.len() ==> key_of(s[i], k) <= key_of(s[j], k)
}

/// Keys never go up along `s`.
pub open spec fn descending(s: Seq<TaskView>, k: SortKey) -> bool {
    forall|i: int, j: int| 0 <= i <= j < s.len() ==> key_of(s[i], k) >= key_of(s[j], k)
}

/// Inserting at `p`, past which every key is above `x`'s and before which the
/// last key is not, is what `insert_sorted` does.
proof fn lemma_insert_at(s: Seq<TaskView>, x: TaskView, k: SortKey, p: int)
    requires
        0 <= p <= s.len(),
        forall|j: int| p <= j < s.len() ==> key_of(s[j], k) > key_of(x, k),
        p > 0 ==> key_of(s[p - 1], k) <= key_of(x, k),
    ensures
        insert_sorted(s, x, k) == s.insert(p, x),
    decreases s.len(),
{
    if s.len() == 0 {
        assert(s.insert(p, x) =~= seq![x]);
    } else if p == s.len() {
        assert(s.insert(p, x) =~= s.push(x));
    } else {
        lemma_insert_at(s.drop_last(), x, k, p);
        assert(s.insert(p, x) =~= s.drop_last().insert(p, x).push(s.last()));
    }
}

/// Inserting into an ascending list keeps it ascending and adds exactly `x`.
pub proof fn lemma_insert_sorted(s: Seq<TaskView>, x: TaskView, k: SortKey)
    requires
        ascending(s, k),
    ensures
        ascending(insert_sorted(s, x, k), k),
        insert_sorted(s, x, k).to_multiset() == s.to_multiset().insert(x),
    decreases s.len(),
{
    broadcast use vstd::seq_lib::group_seq_properties;
    if s.len() == 0 {
        assert(seq![x] =~= Seq::<TaskView>::empty().push(x));
    } else if key_of(s.last(), k) <= key_of(x, k) {
    } else {
        let init = s.drop_last();
        assert(ascending(init, k));
        lemma_insert_sorted(init, x, k);
        let m = insert_sorted(init, x, k);
        assert(s =~= init.push(s.last()));
        assert forall|i: int, j: int| 0 <= i <= j < m.len() + 1 implies key_of(
            m.push(s.last())[i],
            k,
        ) <= key_of(m.push(s.last())[j], k) by {
            if j == m.len() && i < m.len() {
                assert(m.to_multiset().count(m[i]) > 0);
                assert(init.to_multiset().insert(x).count(m[i]) > 0);
                if m[i] != x {
                    assert(init.contains(m[i]));
                    let a = choose|a: int| 0 <= a < init.len() && init[a] == m[i];
                    assert(s[a] == init[a]);
                }
            }
        }
    }
}

/// Sorting yields an ascending rearrangement of the same entries.
pub proof fn lemma_sorted_by(s: Seq<TaskView>, k: SortKey)
    ensures
        ascending(sorted_by(s, k), k),
        sorted_by(s, k).to_multiset() == s.to_multiset(),
        sorted_by(s, k).len() == s.len(),
    decreases s.len(),
{
    broadcast use vstd::seq_lib::group_seq_properties;
    if s.len() > 0 {
        lemma_sorted_by(s.drop_last(), k);
        lemma_insert_sorted(sorted_by(s.drop_last(), k), s.last(), k);
        assert(s =~= s.drop_last().push(s.last()));
        sorted_by(s, k).to_multiset_ensures();
        s.to_multiset_ensures();
    }
}

/// The key of a task.
fn key_value(t: &Task, k: SortKey) -> (r: i64)
    ensures
        r as int == key_of(t@, k),
{
    match k {
        SortKey::CreatedAt => t.created_at,
        SortKey::Priority => t.priority.sort_value() as i64,
    }
}

/// Sort tasks by `k`, ascending, or descending as the ascending order reversed.
pub fn sort_tasks(items: Vec<Task>, k: SortKey, descending_order: bool) -> (r: Vec<Task>)
    ensures
        views(r@) == ordered(views(items@), k, descending_order),
{
    let mut out: Vec<Task> = Vec::new();
    let mut i: usize = 0;
    while i < items.len()
        invariant
            i <= items@.len(),
            views(out@) == sorted_by(views(items@).subrange(0, i as int), k),
            out@.len() == i,
        decreases items@.len() - i,
    {
        let x = items[i].snapshot();
        let kx = key_value(&x, k);
        let ghost prefix = views(items@).subrange(0, i as int + 1);
        assert(prefix.drop_last() =~= views(items@).subrange(0, i as int));
        let mut p: usize = out.len();
        while p > 0 && key_value(&out[p - 1], k) > kx
            invariant
                p <= out@.len(),
                forall|j: int| p <= j < out@.len() ==> key_of(views(out@)[j], k) > kx,
            decreases p,
        {
            p -= 1;
        }
        proof {
            lemma_insert_at(views(out@), x@, k, p as int);
        }
        let ghost prev = out@;
        out.insert(p, x);
        assert(views(out@) =~= views(prev).insert(p as int, x@));
        i += 1;
    }
    assert(views(items@).subrange(0, i as int) =~= views(items@));
    if descending_order {
        let mut rev: Vec<Task> = Vec::new();
        let mut j: usize = out.len();
        while j > 0
            invariant
                j <= out@.len(),
                views(rev@) == views(out@).subrange(j as int, out@.len() as int).reverse(),
            decreases j,
        {
            j -= 1;
            let ghost prev = rev@;
            let y = out[j].snapshot();
            rev.push(y);
            assert(views(rev@) =~= views(prev).push(views(out@)[j as int]));
            let ghost tail = views(out@).subrange(j as int, out@.len() as int);
            let ghost tail1 = views(out@).subrange(j as int + 1, out@.len() as int);
            assert(tail1 =~= tail.drop_first());
            assert forall|a: int| 0 <= a < views(rev@).len() implies views(rev@)[a] == tail.reverse()[a] by {
                if a < prev.len() {
                    assert(views(prev)[a] == tail1.reverse()[a]);
                }
            }
            assert(views(rev@) =~= tail.reverse());
        }
        assert(views(out@).subrange(0, out@.len() as int) =~= views(out@));
        rev
    } else {
        out
    }
}

/// Page size used when none is requested.
pub const DEFAULT_PER_PAGE: usize = 20;

/// Largest page size served, whatever is requested.
pub const MAX_PER_PAGE: usize = 100;

/// Query parameters of a task listing.
#[derive(Clone, Debug)]
pub struct ListParams {
    pub completed: Option<bool>,
    pub page: Option<usize>,
    pub per_page: Option<usize>,
    pub sort: Option<String>,
}

/// One page of a task listing, with the effective page and page size and the
/// number of tasks before pagination.
#[derive(Clone, Debug)]
pub struct ListPage {
    pub items: Vec<Task>,
    pub total: usize,
    pub page: usize,
    pub per_page: usize,
}

/// The keep-test of the completion filter.
pub open spec fn completion_is(b: bool) -> spec_fn(TaskView) -> bool {
    |t: TaskView| t.completed == b
}

/// The tasks whose completion flag is the requested one; all of them when none is requested.
pub open spec fn with_completion(s: Seq<TaskView>, c: Option<bool>) -> Seq<TaskView> {
    match c {
        Some(b) => s.filter(completion_is(b)),
        None => s,
    }
}

/// The page index served: at least 1, and 1 when none is requested.
pub open spec fn effective_page(p: Option<usize>) -> int {
    match p {
        Some(x) => if x >= 1 {
            x as int
        } else {
            1
        },
        None => 1,
    }
}

/// The page size served: between 1 and the maximum, and the default when none is requested.
pub open spec fn effective_per_page(p: Option<usize>) -> int {
    match p {
        Some(x) => if x < 1 {
            1
        } else if x > MAX_PER_PAGE {
            MAX_PER_PAGE as int
        } else {
            x as int
        },
        None => DEFAULT_PER_PAGE as int,
    }
}

/// The entries of page `page` (from 1) of `s`, `per` to a page.
pub open spec fn page_slice<T>(s: Seq<T>, page: int, per: int) -> Seq<T> {
    let start = per * (page - 1);
    if start >= s.len() {
        Seq::empty()
    } else if start + per < s.len() {
        s.subrange(start, start + per)
    } else {
        s.subrange(start, s.len() as int)
    }
}

/// What a sort directive asks for: `priority...` orders by priority, anything
/// else by creation time; descending when it ends in `:desc` (for creation time
/// only after a `created_at` prefix).
pub open spec fn sort_directive(s: Option<String>) -> (SortKey, bool) {
    match s {
        Some(d) => if is_prefix("priority"@, d@) {
            (SortKey::Priority, is_suffix(":desc"@, d@))
        } else {
            (SortKey::CreatedAt, is_prefix("created_at"@, d@) && is_suffix(":desc"@, d@))
        },
        None => (SortKey::CreatedAt, false),
    }
}

/// The ordered and filtered tasks that a listing pages through.
pub open spec fn listing(s: Seq<TaskView>, params: ListParams) -> Seq<TaskView> {
    let (k, d) = sort_directive(params.sort);
    with_completion(ordered(s, k, d), params.completed)
}

/// A page holds `max(0, min(per, total - per * (page - 1)))` entries.
pub proof fn lemma_page_len<T>(s: Seq<T>, page: int, per: int)
    requires
        page >= 1,
        per >= 1,
    ensures
        page_slice(s, page, per).len() == vstd::math::max(
            0,
            vstd::math::min(per, s.len() - per * (page - 1)),
        ),
{
    assert(per * (page - 1) >= 0) by (nonlinear_arith)
        requires
            page >= 1,
            per >= 1,
    ;
}

/// The descending order is the ascending order read backwards, and it puts the
/// largest key first.
pub proof fn lemma_descending_is_reversed(s: Seq<TaskView>, k: SortKey)
    ensures
        ordered(s, k, true) == ordered(s, k, false).reverse(),
        descending(ordered(s, k, true), k),
        ordered(s, k, true).to_multiset() == s.to_multiset(),
{
    lemma_sorted_by(s, k);
    let a = sorted_by(s, k);
    let d = a.reverse();
    assert forall|i: int, j: int| 0 <= i <= j < d.len() implies key_of(d[i], k) >= key_of(
        d[j],
        k,
    ) by {
        assert(d[i] == a[a.len() - 1 - i] && d[j] == a[a.len() - 1 - j]);
    }
    a.lemma_reverse_to_multiset();
}

/// Copies of the tasks whose completion flag is `c` (all of them when `c` is absent).
pub fn filter_completed(items: Vec<Task>, c: Option<bool>) -> (r: Vec<Task>)
    ensures
        views(r@) == with_completion(views(items@), c),
{
    match c {
        None => items,
        Some(b) => {
            let mut out: Vec<Task> = Vec::new();
            let mut i: usize = 0;
            while i < items.len()
                invariant
                    i <= items@.len(),
                    views(out@) == views(items@).subrange(0, i as int).filter(completion_is(b)),
                decreases items@.len() - i,
            {
                let ghost prefix = views(items@).subrange(0, i as int + 1);
                assert(prefix.drop_last() =~= views(items@).subrange(0, i as int));
                if items[i].completed == b {
                    let ghost prev = out@;
                    let t = items[i].snapshot();
                    out.push(t);
                    assert(views(out@) =~= views(prev).push(t@));
                    assert(views(out@) == prefix.filter(completion_is(b))) by {
                        reveal(Seq::filter);
                    }
                } else {
                    assert(views(out@) == prefix.filter(completion_is(b))) by {
                        reveal(Seq::filter);
                    }
                }
                i += 1;
            }
            assert(views(items@).subrange(0, i as int) =~= views(items@));
            out
        },
    }
}

/// Copies of the tasks from position `start` up to, not including, `end`.
fn copy_range(items: &Vec<Task>, start: usize, end: usize) -> (r: Vec<Task>)
    requires
        start <= end <= items@.len(),
    ensures
        views(r@) == views(items@).subrange(start as int, end as int),
{
    let mut out: Vec<Task> = Vec::new();
    let mut i: usize = start;
    while i < end
        invariant
            start <= i <= end,
            end <= items@.len(),
            views(out@) == views(items@).subrange(start as int, i as int),
        decreases end - i,
    {
        let ghost prev = out@;
        let t = items[i].snapshot();
        out.push(t);
        assert(views(out@) =~= views(prev).push(t@));
        assert(views(out@) =~= views(items@).subrange(start as int, i as int + 1));
        i += 1;
    }
    out
}

/// Page `page` (from 1) of `items`, `per_page` to a page, with the effective page
/// and page size and the total before pagination.
pub fn paginate(items: Vec<Task>, page: Option<usize>, per_page: Option<usize>) -> (r: ListPage)
    ensures
        r.total == items@.len(),
        r.page == effective_page(page),
        r.per_page == effective_per_page(per_page),
        views(r.items@) == page_slice(views(items@), r.page as int, r.per_page as int),
{
    let pg: usize = match page {
        Some(x) => if x >= 1 {
            x
        } else {
            1
        },
        None => 1,
    };
    let per: usize = match per_page {
        Some(x) => if x < 1 {
            1
        } else if x > MAX_PER_PAGE {
            MAX_PER_PAGE
        } else {
            x
        },
        None => DEFAULT_PER_PAGE,
    };
    let total = items.len();
    assert((pg - 1) as u128 * per as u128 <= 100 * 0xffff_ffff_ffff_ffffu128) by (nonlinear_arith)
        requires
            1 <= pg <= 0xffff_ffff_ffff_ffffu64,
            1 <= per <= 100,
    ;
    let start: u128 = (pg as u128 - 1) * per as u128;
    assert(start as int == per as int * (pg as int - 1)) by (nonlinear_arith)
        requires
            start as int == (pg as int - 1) * (per as int),
    ;
    let page_items = if start >= total as u128 {
        Vec::new()
    } else {
        let s = start as usize;
        let end = if start + (per as u128) < total as u128 {
            s + per
        } else {
            total
        };
        copy_range(&items, s, end)
    };
    proof {
        if start >= total as u128 {
            assert(views(page_items@) =~= Seq::<TaskView>::empty());
        }
    }
    ListPage { items: page_items, total, page: pg, per_page: per }
}

/// The key and direction a sort directive asks for.
pub fn parse_sort(sort: &Option<String>) -> (r: (SortKey, bool))
    ensures
        r == sort_directive(*sort),
{
    match sort {
        Some(d) => {
            let d = d.as_str();
            if starts_with(d, "priority") {
                (SortKey::Priority, ends_with(d, ":desc"))
            } else {
                (SortKey::CreatedAt, starts_with(d, "created_at") && ends_with(d, ":desc"))
            }
        },
        None => (SortKey::CreatedAt, false),
    }
}

/// List a snapshot: order it as the sort directive asks, keep the requested
/// completion state, then cut out the requested page.
pub fn query_tasks(items: Vec<Task>, params: &ListParams) -> (r: ListPage)
    ensures
        r.total == listing(views(items@), *params).len(),
        r.page == effective_page(params.page),
        r.per_page == effective_per_page(params.per_page),
        views(r.items@) == page_slice(listing(views(items@), *params), r.page as int, r.per_page as int),
{
    let (k, d) = parse_sort(&params.sort);
    let sorted = sort_tasks(items, k, d);
    let filtered = filter_completed(sorted, params.completed);
    paginate(filtered, params.page, params.per_page)
}

/// The keep-test of the tag search: some tag equals `q` up to ASCII case.
pub open spec fn tagged(q: Seq<char>) -> spec_fn(TaskView) -> bool {
    |t: TaskView| exists|i: int| 0 <= i < t.tags.len() && eq_ignore_ascii(#[trigger] t.tags[i], q)
}

/// Whether some tag of `t` equals `q` up to ASCII case.
fn has_tag(t: &Task, q: &str) -> (r: bool)
    ensures
        r == tagged(q@)(t@),
{
    let mut i: usize = 0;
    while i < t.tags.len()
        invariant
            i <= t.tags@.len(),
            forall|j: int| 0 <= j < i ==> !eq_ignore_ascii(#[trigger] t@.tags[j], q@),
        decreases t.tags@.len() - i,
    {
        if same_ignoring_ascii_case(t.tags[i].as_str(), q) {
            assert(t@.tags[i as int] == t.tags@[i as int]@);
            return true;
        }
        i += 1;
    }
    false
}

/// Copies of the tasks that carry tag `tag`, matched case-insensitively: the
/// query is lower-cased, then compared up to ASCII case.
pub fn search_by_tag(items: Vec<Task>, tag: &str) -> (r: Vec<Task>)
    ensures
        views(r@) == views(items@).filter(tagged(lower_of(tag@))),
{
    let q = lowercase(tag);
    let mut out: Vec<Task> = Vec::new();
    let mut i: usize = 0;
    while i < items.len()
        invariant
            i <= items@.len(),
            q@ == lower_of(tag@),
            views(out@) == views(items@).subrange(0, i as int).filter(tagged(q@)),
        decreases items@.len() - i,
    {
        let ghost prefix = views(items@).subrange(0, i as int + 1);
        assert(prefix.drop_last() =~= views(items@).subrange(0, i as int));
        if has_tag(&items[i], q.as_str()) {
            let ghost prev = out@;
            let t = items[i].snapshot();
            out.push(t);
            assert(views(out@) =~= views(prev).push(t@));
            assert(views(out@) == prefix.filter(tagged(q@))) by {
                reveal(Seq::filter);
            }
        } else {
            assert(views(out@) == prefix.filter(tagged(q@))) by {
                reveal(Seq::filter);
            }
        }
        i += 1;
    }
    assert(views(items@).subrange(0, i as int) =~= views(items@));
    out
}

/// The keep-test of the priority search.
pub open spec fn priority_is(p: Priority) -> spec_fn(TaskView) -> bool {
    |t: TaskView| t.priority == p
}

/// Copies of the tasks with priority `p`.
pub fn search_by_priority(items: Vec<Task>, p: Priority) -> (r: Vec<Task>)
    ensures
        views(r@) == views(items@).filter(priority_is(p)),
{
    let mut out: Vec<Task> = Vec::new();
    let mut i: usize = 0;
    while i < items.len()
        invariant
            i <= items@.len(),
            views(out@) == views(items@).subrange(0, i as int).filter(priority_is(p)),
        decreases items@.len() - i,
    {
        let ghost prefix = views(items@).subrange(0, i as int + 1);
        assert(prefix.drop_last() =~= views(items@).subrange(0, i as int));
        if items[i].priority == p {
            let ghost prev = out@;
            let t = items[i].snapshot();
            out.push(t);
            assert(views(out@) =~= views(prev).push(t@));
            assert(views(out@) == prefix.filter(priority_is(p))) by {
                reveal(Seq::filter);
            }
        } else {
            assert(views(out@) == prefix.filter(priority_is(p))) by {
                reveal(Seq::filter);
            }
        }
        i += 1;
    }
    assert(views(items@).subrange(0, i as int) =~= views(items@));
    out
}

} // verus!
