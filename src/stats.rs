//! Aggregate statistics over a snapshot of tasks.

use vstd::prelude::*;
use crate::query::completion_is;
use crate::store::views;
use crate::task::{Task, TaskView};
use crate::text::chars_of;

verus! {

/// How many tags the distribution lists at most.
pub const TOP_TAGS: usize = 10;

/// `a` comes before `b` in the order of character codes.
pub open spec fn lex_lt(a: Seq<char>, b: Seq<char>) -> bool
    decreases a.len(),
{
    if a.len() == 0 {
        b.len() > 0
    } else if b.len() == 0 {
        false
    } else if a[0] != b[0] {
        a[0] < b[0]
    } else {
        lex_lt(a.drop_first(), b.drop_first())
    }
}

/// No sequence comes before itself.
pub proof fn lemma_lex_irreflexive(a: Seq<char>)
    ensures
        !lex_lt(a, a),
    decreases a.len(),
{
    if a.len() > 0 {
        lemma_lex_irreflexive(a.drop_first());
    }
}

/// Of two different sequences, exactly one comes first.
pub proof fn lemma_lex_total(a: Seq<char>, b: Seq<char>)
    requires
        a != b,
    ensures
        lex_lt(a, b) != lex_lt(b, a),
    decreases a.len(),
{
    if a.len() > 0 && b.len() > 0 && a[0] == b[0] {
        if a.drop_first() == b.drop_first() {
            assert(a =~= seq![a[0]] + a.drop_first());
            assert(b =~= seq![b[0]] + b.drop_first());
        }
        lemma_lex_total(a.drop_first(), b.drop_first());
    } else if a.len() > 0 && b.len() > 0 {
    } else if a.len() == 0 && b.len() == 0 {
        assert(a =~= b);
    }
}

/// The order of character codes is transitive.
pub proof fn lemma_lex_transitive(a: Seq<char>, b: Seq<char>, c: Seq<char>)
    requires
        lex_lt(a, b),
        lex_lt(b, c),
    ensures
        lex_lt(a, c),
    decreases a.len(),
{
    if a.len() > 0 && b.len() > 0 && c.len() > 0 && a[0] == b[0] && b[0] == c[0] {
        lemma_lex_transitive(a.drop_first(), b.drop_first(), c.drop_first());
    }
}

/// A tag and how many tasks carry it.
#[derive(Clone, Debug)]
pub struct TagCount {
    pub tag: String,
    pub count: usize,
}

/// Aggregate figures over a set of tasks. Timestamps count microseconds since
/// the Unix epoch.
#[derive(Clone, Debug)]
pub struct Stats {
    pub total: usize,
    pub completed: usize,
    pub incomplete: usize,
    /// The most used tags, most used first, ties in alphabetical order.
    pub tag_distribution: Vec<TagCount>,
    pub oldest_created_at: Option<i64>,
    pub newest_created_at: Option<i64>,
}

/// How many tasks of `s` carry tag `t`.
pub open spec fn occurrences(s: Seq<TaskView>, t: Seq<char>) -> nat
    decreases s.len(),
{
    if s.len() == 0 {
        0
    } else {
        occurrences(s.drop_last(), t) + if s.last().tags.contains(t) {
            1nat
        } else {
            0nat
        }
    }
}

/// Entry `x` ranks before entry `y`: more tasks, or as many and an earlier tag.
pub open spec fn ranks_before(x: TagCount, y: TagCount) -> bool {
    x.count > y.count || (x.count == y.count && lex_lt(x.tag@, y.tag@))
}

/// The tags of a table are distinct.
pub open spec fn distinct_tags(v: Seq<TagCount>) -> bool {
    forall|i: int, j: int| 0 <= i < j < v.len() ==> #[trigger] v[i].tag@ != #[trigger] v[j].tag@
}

/// Tag `t` is listed in `v`.
pub open spec fn lists(v: Seq<TagCount>, t: Seq<char>) -> bool {
    exists|i: int| 0 <= i < v.len() && #[trigger] v[i].tag@ == t
}

/// The tag distribution of `s`: the listed tags are distinct and carry their
/// true counts, run in ranking order, number at most `TOP_TAGS`, and every tag
/// left out ranks below all listed ones, which only happens on a full list.
pub open spec fn is_top_tags(s: Seq<TaskView>, d: Seq<TagCount>) -> bool {
    &&& d.len() <= TOP_TAGS
    &&& distinct_tags(d)
    &&& forall|i: int|
        0 <= i < d.len() ==> #[trigger] d[i].count == occurrences(s, d[i].tag@) && d[i].count > 0
    &&& forall|i: int, j: int| 0 <= i < j < d.len() ==> ranks_before(#[trigger] d[i], #[trigger] d[j])
    &&& forall|t: Seq<char>|
        occurrences(s, t) > 0 && !lists(d, t) ==> d.len() == TOP_TAGS && forall|i: int|
            0 <= i < d.len() ==> #[trigger] d[i].count >= occurrences(s, t) && (d[i].count
                == occurrences(s, t) ==> lex_lt(d[i].tag@, t))
}

/// No task counts a tag more than once, however many times it lists it.
pub proof fn lemma_occurrences_bound(s: Seq<TaskView>, t: Seq<char>)
    ensures
        occurrences(s, t) <= s.len(),
    decreases s.len(),
{
    if s.len() > 0 {
        lemma_occurrences_bound(s.drop_last(), t);
    }
}

/// Whether `a` comes before `b` in the order of character codes.
pub fn lex_less(a: &str, b: &str) -> (r: bool)
    ensures
        r == lex_lt(a@, b@),
{
    let ac = chars_of(a);
    let bc = chars_of(b);
    assert(ac@.subrange(0, ac@.len() as int) =~= a@);
    assert(bc@.subrange(0, bc@.len() as int) =~= b@);
    let mut i: usize = 0;
    while i < ac.len() && i < bc.len() && ac[i] == bc[i]
        invariant
            i <= ac@.len(),
            i <= bc@.len(),
            lex_lt(a@, b@) == lex_lt(ac@.subrange(i as int, ac@.len() as int), bc@.subrange(
                i as int,
                bc@.len() as int,
            )),
        decreases ac@.len() - i,
    {
        let ghost x = ac@.subrange(i as int, ac@.len() as int);
        let ghost y = bc@.subrange(i as int, bc@.len() as int);
        assert(x.drop_first() =~= ac@.subrange(i as int + 1, ac@.len() as int));
        assert(y.drop_first() =~= bc@.subrange(i as int + 1, bc@.len() as int));
        i += 1;
    }
    let ghost x = ac@.subrange(i as int, ac@.len() as int);
    let ghost y = bc@.subrange(i as int, bc@.len() as int);
    if i == ac.len() {
        i < bc.len()
    } else if i == bc.len() {
        false
    } else {
        assert(x[0] == ac@[i as int] && y[0] == bc@[i as int]);
        ac[i] < bc[i]
    }
}

/// Whether entry `x` ranks before entry `y`.
fn ranks_first(x: &TagCount, y: &TagCount) -> (r: bool)
    ensures
        r == ranks_before(*x, *y),
{
    x.count > y.count || (x.count == y.count && lex_less(x.tag.as_str(), y.tag.as_str()))
}

/// Ranking is a strict order on entries with different tags.
proof fn lemma_rank_order(x: TagCount, y: TagCount, z: TagCount)
    ensures
        x.tag@ != y.tag@ ==> ranks_before(x, y) != ranks_before(y, x),
        ranks_before(x, y) && ranks_before(y, z) ==> ranks_before(x, z),
        !ranks_before(x, x),
{
    lemma_lex_irreflexive(x.tag@);
    if x.tag@ != y.tag@ {
        lemma_lex_total(x.tag@, y.tag@);
    }
    if ranks_before(x, y) && ranks_before(y, z) && x.count == y.count && y.count == z.count {
        lemma_lex_transitive(x.tag@, y.tag@, z.tag@);
    }
}

/// The number of completed tasks.
pub open spec fn completed_count(s: Seq<TaskView>) -> nat {
    s.filter(completion_is(true)).len()
}

/// The earliest creation time in `s`, if any.
pub open spec fn is_oldest(s: Seq<TaskView>, r: Option<i64>) -> bool {
    match r {
        None => s.len() == 0,
        Some(m) => (exists|i: int| 0 <= i < s.len() && #[trigger] s[i].created_at == m) && forall|
            i: int,
        |
            0 <= i < s.len() ==> m <= #[trigger] s[i].created_at,
    }
}

/// The latest creation time in `s`, if any.
pub open spec fn is_newest(s: Seq<TaskView>, r: Option<i64>) -> bool {
    match r {
        None => s.len() == 0,
        Some(m) => (exists|i: int| 0 <= i < s.len() && #[trigger] s[i].created_at == m) && forall|
            i: int,
        |
            0 <= i < s.len() ==> m >= #[trigger] s[i].created_at,
    }
}

/// Entry `e` stands in `v` with the same tag and count.
pub open spec fn holds_entry(v: Seq<TagCount>, e: TagCount) -> bool {
    exists|i: int| 0 <= i < v.len() && #[trigger] v[i].tag@ == e.tag@ && v[i].count == e.count
}

/// Where tag `t` stands in `table`, if anywhere.
fn find_tag(table: &Vec<TagCount>, t: &String) -> (r: Option<usize>)
    ensures
        r matches Some(k) ==> k < table@.len() && table@[k as int].tag@ == t@,
        r is None ==> !lists(table@, t@),
{
    let mut i: usize = 0;
    while i < table.len()
        invariant
            i <= table@.len(),
            forall|j: int| 0 <= j < i ==> table@[j].tag@ != t@,
        decreases table@.len() - i,
    {
        if table[i].tag == *t {
            return Some(i);
        }
        i += 1;
    }
    None
}

/// For each tag carried by some task, how many tasks carry it.
fn tag_table(items: &Vec<Task>) -> (r: Vec<TagCount>)
    requires
        forall|i: int| 0 <= i < items@.len() ==> (#[trigger] views(items@)[i]).wf(),
    ensures
        distinct_tags(r@),
        forall|k: int|
            0 <= k < r@.len() ==> #[trigger] r@[k].count == occurrences(views(items@), r@[k].tag@)
                && r@[k].count > 0,
        forall|t: Seq<char>| occurrences(views(items@), t) > 0 ==> lists(r@, t),
{
    let ghost s = views(items@);
    let n = items.len();
    let mut table: Vec<TagCount> = Vec::new();
    let mut i: usize = 0;
    while i < items.len()
        invariant
            i <= items@.len(),
            n == items@.len(),
            s == views(items@),
            forall|a: int| 0 <= a < items@.len() ==> (#[trigger] s[a]).wf(),
            distinct_tags(table@),
            forall|k: int|
                0 <= k < table@.len() ==> #[trigger] table@[k].count == occurrences(
                    s.subrange(0, i as int),
                    table@[k].tag@,
                ) && table@[k].count > 0,
            forall|t: Seq<char>| occurrences(s.subrange(0, i as int), t) > 0 ==> lists(table@, t),
        decreases items@.len() - i,
    {
        let ghost pre = s.subrange(0, i as int);
        let ghost tags = s[i as int].tags;
        assert(s[i as int].wf());
        proof {
            assert forall|t: Seq<char>| #[trigger] occurrences(pre, t) <= i by {
                lemma_occurrences_bound(pre, t);
            }
        }
        let task = &items[i];
        let mut j: usize = 0;
        while j < task.tags.len()
            invariant
                i < items@.len(),
                n == items@.len(),
                j <= tags.len(),
                task == &items@[i as int],
                tags == s[i as int].tags,
                tags == crate::task::strings_view(task.tags@),
                crate::task::tags_wf(tags),
                forall|t: Seq<char>| #[trigger] occurrences(pre, t) <= i,
                distinct_tags(table@),
                forall|k: int|
                    0 <= k < table@.len() ==> #[trigger] table@[k].count == occurrences(
                        pre,
                        table@[k].tag@,
                    ) + if tags.subrange(0, j as int).contains(table@[k].tag@) {
                        1nat
                    } else {
                        0nat
                    } && table@[k].count > 0,
                forall|t: Seq<char>|
                    occurrences(pre, t) > 0 || tags.subrange(0, j as int).contains(t) ==> #[trigger] lists(
                        table@,
                        t,
                    ),
            decreases tags.len() - j,
        {
            let x = &task.tags[j];
            assert(tags[j as int] == x@);
            let ghost before = tags.subrange(0, j as int);
            let ghost after = tags.subrange(0, j as int + 1);
            assert(after =~= before.push(x@));
            assert(!before.contains(x@)) by {
                if before.contains(x@) {
                    let a = choose|a: int| 0 <= a < before.len() && before[a] == x@;
                    assert(tags[a] == tags[j as int]);
                }
            }
            let ghost old_table = table@;
            match find_tag(&table, x) {
                Some(k) => {
                    let c = table[k].count;
                    assert(c == occurrences(pre, x@));
                    let e = TagCount { tag: table[k].tag.clone(), count: c + 1 };
                    table.set(k, e);
                    assert forall|a: int|
                        0 <= a < table@.len() implies #[trigger] table@[a].count == occurrences(
                        pre,
                        table@[a].tag@,
                    ) + if after.contains(table@[a].tag@) {
                        1nat
                    } else {
                        0nat
                    } && table@[a].count > 0 by {
                        if a != k {
                            assert(old_table[a].tag@ != old_table[k as int].tag@);
                            assert(after.contains(table@[a].tag@) == before.contains(
                                table@[a].tag@,
                            ));
                        } else {
                            assert(after[j as int] == x@);
                        }
                    }
                    assert forall|t: Seq<char>|
                        occurrences(pre, t) > 0 || after.contains(t) implies #[trigger] lists(table@, t) by {
                        if before.contains(t) || occurrences(pre, t) > 0 {
                            assert(lists(old_table, t));
                            let a = choose|a: int| 0 <= a < old_table.len() && #[trigger] old_table[a].tag@ == t;
                            assert(table@[a].tag@ == t);
                        } else {
                            let a = choose|a: int| 0 <= a < after.len() && after[a] == t;
                            assert(table@[k as int].tag@ == t);
                        }
                    }
                },
                None => {
                    assert(occurrences(pre, x@) == 0);
                    table.push(TagCount { tag: x.clone(), count: 1 });
                    assert forall|a: int|
                        0 <= a < table@.len() implies #[trigger] table@[a].count == occurrences(
                        pre,
                        table@[a].tag@,
                    ) + if after.contains(table@[a].tag@) {
                        1nat
                    } else {
                        0nat
                    } && table@[a].count > 0 by {
                        if a < old_table.len() {
                            assert(table@[a] == old_table[a]);
                            assert(old_table[a].tag@ != x@);
                            assert(after.contains(table@[a].tag@) == before.contains(
                                table@[a].tag@,
                            ));
                        } else {
                            assert(after[j as int] == x@);
                        }
                    }
                    assert forall|t: Seq<char>|
                        occurrences(pre, t) > 0 || after.contains(t) implies #[trigger] lists(table@, t) by {
                        if before.contains(t) || occurrences(pre, t) > 0 {
                            assert(lists(old_table, t));
                            let a = choose|a: int| 0 <= a < old_table.len() && #[trigger] old_table[a].tag@ == t;
                            assert(table@[a] == old_table[a]);
                        } else {
                            let a = choose|a: int| 0 <= a < after.len() && after[a] == t;
                            assert(table@[old_table.len() as int].tag@ == t);
                        }
                    }
                    assert forall|a: int, b: int| 0 <= a < b < table@.len() implies #[trigger] table@[a].tag@
                        != #[trigger] table@[b].tag@ by {
                        if b < old_table.len() {
                            assert(table@[a] == old_table[a] && table@[b] == old_table[b]);
                        } else {
                            assert(table@[a] == old_table[a]);
                        }
                    }
                },
            }
            j += 1;
        }
        let ghost next = s.subrange(0, i as int + 1);
        assert(next.drop_last() =~= pre);
        assert(tags.subrange(0, j as int) =~= tags);
        i += 1;
    }
    assert(s.subrange(0, i as int) =~= s);
    table
}

/// Position of the entry that ranks first in `v`.
fn best_index(v: &Vec<TagCount>) -> (r: usize)
    requires
        v@.len() > 0,
        distinct_tags(v@),
    ensures
        r < v@.len(),
        forall|j: int| 0 <= j < v@.len() && j != r ==> ranks_before(v@[r as int], #[trigger] v@[j]),
{
    let mut b: usize = 0;
    let mut i: usize = 1;
    while i < v.len()
        invariant
            1 <= i <= v@.len(),
            b < i,
            distinct_tags(v@),
            forall|j: int| 0 <= j < i && j != b ==> ranks_before(v@[b as int], #[trigger] v@[j]),
        decreases v@.len() - i,
    {
        if ranks_first(&v[i], &v[b]) {
            proof {
                assert forall|j: int| 0 <= j < i + 1 && j != i implies ranks_before(
                    v@[i as int],
                    #[trigger] v@[j],
                ) by {
                    if j != b {
                        lemma_rank_order(v@[i as int], v@[b as int], v@[j]);
                    }
                }
            }
            b = i;
        } else {
            proof {
                lemma_rank_order(v@[i as int], v@[b as int], v@[b as int]);
            }
        }
        i += 1;
    }
    b
}

/// The entries of `table` that rank highest, at most `TOP_TAGS` of them, in
/// ranking order.
fn select_top(table: Vec<TagCount>) -> (r: Vec<TagCount>)
    requires
        distinct_tags(table@),
    ensures
        r@.len() <= TOP_TAGS,
        distinct_tags(r@),
        forall|i: int| 0 <= i < r@.len() ==> holds_entry(table@, #[trigger] r@[i]),
        forall|i: int, j: int| 0 <= i < j < r@.len() ==> ranks_before(#[trigger] r@[i], #[trigger] r@[j]),
        forall|k: int|
            0 <= k < table@.len() && !lists(r@, #[trigger] table@[k].tag@) ==> r@.len() == TOP_TAGS
                && forall|i: int| 0 <= i < r@.len() ==> ranks_before(#[trigger] r@[i], table@[k]),
{
    let ghost t0 = table@;
    let mut rem = table;
    let mut out: Vec<TagCount> = Vec::new();
    assert forall|b: int| 0 <= b < t0.len() implies holds_entry(t0, #[trigger] t0[b]) by {
        assert(t0[b].tag@ == t0[b].tag@);
    }
    while out.len() < TOP_TAGS && rem.len() > 0
        invariant
            out@.len() <= TOP_TAGS,
            distinct_tags(out@),
            distinct_tags(rem@),
            forall|a: int, b: int|
                0 <= a < out@.len() && 0 <= b < rem@.len() ==> #[trigger] out@[a].tag@
                    != #[trigger] rem@[b].tag@ && ranks_before(out@[a], rem@[b]),
            forall|a: int| 0 <= a < out@.len() ==> holds_entry(t0, #[trigger] out@[a]),
            forall|b: int| 0 <= b < rem@.len() ==> holds_entry(t0, #[trigger] rem@[b]),
            forall|k: int|
                0 <= k < t0.len() ==> holds_entry(out@, #[trigger] t0[k]) || holds_entry(rem@, t0[k]),
            forall|a: int, c: int| 0 <= a < c < out@.len() ==> ranks_before(#[trigger] out@[a], #[trigger] out@[c]),
        decreases rem@.len(),
    {
        let b = best_index(&rem);
        let ghost old_out = out@;
        let ghost old_rem = rem@;
        let e = rem.remove(b);
        out.push(e);
        assert(out@ == old_out.push(e));
        assert(rem@ == old_rem.remove(b as int));
        assert forall|x: int| 0 <= x < rem@.len() implies #[trigger] rem@[x] == old_rem[if x < b {
            x
        } else {
            x + 1
        }] by {}
        assert forall|a: int, c: int| 0 <= a < c < out@.len() implies ranks_before(#[trigger] out@[a], #[trigger] out@[c]) by {
            if c == old_out.len() {
                assert(out@[a] == old_out[a]);
            } else {
                assert(out@[a] == old_out[a] && out@[c] == old_out[c]);
            }
        }
        assert forall|a: int, y: int|
            0 <= a < out@.len() && 0 <= y < rem@.len() implies #[trigger] out@[a].tag@
                != #[trigger] rem@[y].tag@ && ranks_before(out@[a], rem@[y]) by {
            let oy = if y < b { y } else { y + 1 };
            assert(rem@[y] == old_rem[oy]);
            if a < old_out.len() {
                assert(out@[a] == old_out[a]);
            } else {
                assert(old_rem[b as int].tag@ != old_rem[oy].tag@);
            }
        }
        assert forall|a: int, c: int| 0 <= a < c < out@.len() implies #[trigger] out@[a].tag@
            != #[trigger] out@[c].tag@ by {
            if c == old_out.len() {
                assert(out@[a] == old_out[a]);
            } else {
                assert(out@[a] == old_out[a] && out@[c] == old_out[c]);
            }
        }
        assert forall|x: int, y: int| 0 <= x < y < rem@.len() implies #[trigger] rem@[x].tag@
            != #[trigger] rem@[y].tag@ by {
            let ox = if x < b { x } else { x + 1 };
            let oy = if y < b { y } else { y + 1 };
            assert(old_rem[ox].tag@ != old_rem[oy].tag@);
        }
        assert forall|a: int| 0 <= a < out@.len() implies holds_entry(t0, #[trigger] out@[a]) by {
            if a < old_out.len() {
                assert(out@[a] == old_out[a]);
            } else {
                assert(out@[a] == old_rem[b as int]);
            }
        }
        assert forall|y: int| 0 <= y < rem@.len() implies holds_entry(t0, #[trigger] rem@[y]) by {
            let oy = if y < b { y } else { y + 1 };
            assert(rem@[y] == old_rem[oy]);
        }
        assert forall|k: int| 0 <= k < t0.len() implies holds_entry(out@, #[trigger] t0[k]) || holds_entry(rem@, t0[k]) by {
            if holds_entry(old_out, t0[k]) {
                let a = choose|a: int| 0 <= a < old_out.len() && #[trigger] old_out[a].tag@ == t0[k].tag@ && old_out[a].count == t0[k].count;
                assert(out@[a] == old_out[a]);
            } else {
                let y = choose|y: int| 0 <= y < old_rem.len() && #[trigger] old_rem[y].tag@ == t0[k].tag@ && old_rem[y].count == t0[k].count;
                if y == b {
                    assert(out@[old_out.len() as int] == old_rem[y]);
                } else if y < b {
                    assert(rem@[y] == old_rem[y]);
                } else {
                    assert(rem@[y - 1] == old_rem[y]);
                }
            }
        }
    }
    assert forall|k: int|
        0 <= k < t0.len() && !lists(out@, #[trigger] t0[k].tag@) implies out@.len() == TOP_TAGS
            && forall|i: int| 0 <= i < out@.len() ==> ranks_before(#[trigger] out@[i], t0[k]) by {
        if holds_entry(out@, t0[k]) {
            let a = choose|a: int| 0 <= a < out@.len() && #[trigger] out@[a].tag@ == t0[k].tag@ && out@[a].count == t0[k].count;
            assert(lists(out@, t0[k].tag@));
        }
        let y = choose|y: int| 0 <= y < rem@.len() && #[trigger] rem@[y].tag@ == t0[k].tag@ && rem@[y].count == t0[k].count;
        assert forall|i: int| 0 <= i < out@.len() implies ranks_before(#[trigger] out@[i], t0[k]) by {
            assert(ranks_before(out@[i], rem@[y]));
        }
    }
    out
}

/// The number of completed tasks in `items`.
fn count_completed(items: &Vec<Task>) -> (r: usize)
    ensures
        r == completed_count(views(items@)),
{
    let ghost s = views(items@);
    let mut n: usize = 0;
    let mut i: usize = 0;
    while i < items.len()
        invariant
            i <= items@.len(),
            s == views(items@),
            n == s.subrange(0, i as int).filter(completion_is(true)).len(),
            n <= i,
        decreases items@.len() - i,
    {
        let ghost prefix = s.subrange(0, i as int + 1);
        assert(prefix.drop_last() =~= s.subrange(0, i as int));
        assert(prefix.last() == items@[i as int]@);
        if items[i].completed {
            assert(prefix.filter(completion_is(true)) == s.subrange(0, i as int).filter(
                completion_is(true),
            ).push(prefix.last())) by {
                reveal(Seq::filter);
            }
            n += 1;
        } else {
            assert(prefix.filter(completion_is(true)) == s.subrange(0, i as int).filter(
                completion_is(true),
            )) by {
                reveal(Seq::filter);
            }
        }
        i += 1;
    }
    assert(s.subrange(0, i as int) =~= s);
    n
}

/// The earliest and the latest creation times in `items`, absent when it is empty.
fn creation_bounds(items: &Vec<Task>) -> (r: (Option<i64>, Option<i64>))
    ensures
        is_oldest(views(items@), r.0),
        is_newest(views(items@), r.1),
{
    let ghost s = views(items@);
    if items.len() == 0 {
        return (None, None);
    }
    let mut lo: i64 = items[0].created_at;
    let mut hi: i64 = items[0].created_at;
    assert(s[0].created_at == lo);
    let mut i: usize = 1;
    while i < items.len()
        invariant
            1 <= i <= items@.len(),
            s == views(items@),
            exists|a: int| 0 <= a < s.len() && #[trigger] s[a].created_at == lo,
            exists|a: int| 0 <= a < s.len() && #[trigger] s[a].created_at == hi,
            forall|a: int| 0 <= a < i ==> lo <= #[trigger] s[a].created_at,
            forall|a: int| 0 <= a < i ==> hi >= #[trigger] s[a].created_at,
        decreases items@.len() - i,
    {
        let c = items[i].created_at;
        assert(s[i as int].created_at == c);
        if c < lo {
            lo = c;
        }
        if c > hi {
            hi = c;
        }
        i += 1;
    }
    (Some(lo), Some(hi))
}

/// Aggregate figures over a snapshot of well-formed tasks: total, completed and
/// incomplete counts, the top tags, and the oldest and newest creation times.
pub fn compute_stats(items: &Vec<Task>) -> (r: Stats)
    requires
        forall|i: int| 0 <= i < items@.len() ==> (#[trigger] views(items@)[i]).wf(),
    ensures
        r.total == items@.len(),
        r.completed == completed_count(views(items@)),
        r.incomplete == r.total - r.completed,
        is_top_tags(views(items@), r.tag_distribution@),
        is_oldest(views(items@), r.oldest_created_at),
        is_newest(views(items@), r.newest_created_at),
{
    let ghost s = views(items@);
    let total = items.len();
    let completed = count_completed(items);
    proof {
        s.lemma_filter_len(completion_is(true));
    }
    let table = tag_table(items);
    let ghost tv = table@;
    let top = select_top(table);
    assert forall|i: int| 0 <= i < top@.len() implies #[trigger] top@[i].count == occurrences(
        s,
        top@[i].tag@,
    ) && top@[i].count > 0 by {
        assert(holds_entry(tv, top@[i]));
        let k = choose|k: int| 0 <= k < tv.len() && #[trigger] tv[k].tag@ == top@[i].tag@ && tv[k].count == top@[i].count;
    }
    assert forall|t: Seq<char>| occurrences(s, t) > 0 && !lists(top@, t) implies top@.len()
        == TOP_TAGS && forall|i: int|
        0 <= i < top@.len() ==> #[trigger] top@[i].count >= occurrences(s, t) && (top@[i].count
            == occurrences(s, t) ==> lex_lt(top@[i].tag@, t)) by {
        assert(lists(tv, t));
        let k = choose|k: int| 0 <= k < tv.len() && #[trigger] tv[k].tag@ == t;
        assert(!lists(top@, tv[k].tag@));
        assert forall|i: int| 0 <= i < top@.len() implies #[trigger] top@[i].count >= occurrences(s, t) && (top@[i].count
            == occurrences(s, t) ==> lex_lt(top@[i].tag@, t)) by {
            assert(ranks_before(top@[i], tv[k]));
        }
    }
    let (oldest, newest) = creation_bounds(items);
    Stats {
        total,
        completed,
        incomplete: total - completed,
        tag_distribution: top,
        oldest_created_at: oldest,
        newest_created_at: newest,
    }
}

} // verus!
