//! Tag validation and normalization.

use vstd::prelude::*;
use crate::task::{strings_view, tags_wf};
use crate::text::{chars_of, lower_of, lowercase, trim_spec, trim_str};

verus! {

/// The longest tag accepted, in characters.
pub const MAX_TAG_CHARS: usize = 64;

/// A raw tag is accepted when it holds more than whitespace and is not too long.
pub open spec fn tag_ok(t: Seq<char>) -> bool {
    trim_spec(t).len() > 0 && t.len() <= MAX_TAG_CHARS
}

/// Why a raw tag is refused.
pub open spec fn tag_problem(t: Seq<char>) -> Seq<char> {
    if trim_spec(t).len() == 0 {
        "tags must not contain empty entries"@
    } else {
        "tag too long (max 64 chars)"@
    }
}

/// The normal form of one tag: trimmed, then lower-cased.
pub open spec fn norm_tag(t: Seq<char>) -> Seq<char> {
    lower_of(trim_spec(t))
}

/// The normal form of a tag list: each tag normalized, empty results dropped,
/// and later repeats dropped, in the order of first occurrence.
pub open spec fn normalize_spec(tags: Seq<Seq<char>>) -> Seq<Seq<char>>
    decreases tags.len(),
{
    if tags.len() == 0 {
        Seq::empty()
    } else {
        let prev = normalize_spec(tags.drop_last());
        let n = norm_tag(tags.last());
        if n.len() > 0 && !prev.contains(n) {
            prev.push(n)
        } else {
            prev
        }
    }
}

/// A tag list that normalization has nothing to do on: well formed, and every
/// entry already in normal form.
pub open spec fn is_normalized(tags: Seq<Seq<char>>) -> bool {
    &&& tags_wf(tags)
    &&& forall|i: int| 0 <= i < tags.len() ==> #[trigger] norm_tag(tags[i]) == tags[i]
}

/// Check a raw tag list: the whole list is refused, with the reason of its first
/// bad entry, if any entry trims to nothing or is longer than the limit.
pub fn validate_tags(tags: &[String]) -> (r: Result<(), String>)
    ensures
        r is Ok <==> forall|i: int| 0 <= i < tags@.len() ==> tag_ok(#[trigger] tags@[i]@),
        r matches Err(m) ==> exists|k: int|
            0 <= k < tags@.len() && !tag_ok(tags@[k]@) && (forall|i: int|
                0 <= i < k ==> tag_ok(#[trigger] tags@[i]@)) && m@ == tag_problem(tags@[k]@),
{
    let mut i: usize = 0;
    while i < tags.len()
        invariant
            i <= tags@.len(),
            forall|j: int| 0 <= j < i ==> tag_ok(#[trigger] tags@[j]@),
        decreases tags@.len() - i,
    {
        let t = tags[i].as_str();
        if trim_str(t).is_empty() {
            return Err("tags must not contain empty entries".to_owned());
        }
        if chars_of(t).len() > MAX_TAG_CHARS {
            return Err("tag too long (max 64 chars)".to_owned());
        }
        i += 1;
    }
    Ok(())
}

/// Whether `out` already holds a string equal to `t`.
fn holds_text(out: &Vec<String>, t: &String) -> (r: bool)
    ensures
        r == strings_view(out@).contains(t@),
{
    let mut i: usize = 0;
    while i < out.len()
        invariant
            i <= out@.len(),
            forall|j: int| 0 <= j < i ==> out@[j]@ != t@,
        decreases out@.len() - i,
    {
        if out[i] == *t {
            assert(strings_view(out@)[i as int] == t@);
            return true;
        }
        i += 1;
    }
    proof {
        if strings_view(out@).contains(t@) {
            let k = choose|k: int| 0 <= k < out@.len() && strings_view(out@)[k] == t@;
            assert(out@[k]@ == t@);
        }
    }
    false
}

/// Normalize a tag list: trim and lower-case each entry, drop empty results and
/// keep only the first occurrence of each.
pub fn normalize_tags(tags: &[String]) -> (r: Vec<String>)
    ensures
        strings_view(r@) == normalize_spec(strings_view(tags@)),
{
    let mut out: Vec<String> = Vec::new();
    let mut i: usize = 0;
    while i < tags.len()
        invariant
            i <= tags@.len(),
            strings_view(out@) == normalize_spec(strings_view(tags@).subrange(0, i as int)),
        decreases tags@.len() - i,
    {
        let norm = lowercase(trim_str(tags[i].as_str()));
        let ghost prefix = strings_view(tags@).subrange(0, i as int + 1);
        assert(prefix.drop_last() =~= strings_view(tags@).subrange(0, i as int));
        assert(prefix.last() == tags@[i as int]@);
        if !norm.as_str().is_empty() && !holds_text(&out, &norm) {
            out.push(norm);
            assert(strings_view(out@) =~= normalize_spec(prefix));
        }
        i += 1;
    }
    assert(strings_view(tags@).subrange(0, i as int) =~= strings_view(tags@));
    out
}

/// Normalization yields a well-formed tag list: no empty entry and no repeat.
pub proof fn lemma_normalize_wf(tags: Seq<Seq<char>>)
    ensures
        tags_wf(normalize_spec(tags)),
    decreases tags.len(),
{
    if tags.len() > 0 {
        lemma_normalize_wf(tags.drop_last());
        let prev = normalize_spec(tags.drop_last());
        let n = norm_tag(tags.last());
        if n.len() > 0 && !prev.contains(n) {
            let out = prev.push(n);
            assert forall|i: int, j: int| 0 <= i < j < out.len() implies out[i] != out[j] by {
                if j == out.len() - 1 {
                    assert(prev[i] == out[i]);
                }
            }
        }
    }
}

/// Normalizing an already-normalized tag list changes nothing.
pub proof fn lemma_normalize_idempotent(tags: Seq<Seq<char>>)
    requires
        is_normalized(tags),
    ensures
        normalize_spec(tags) == tags,
    decreases tags.len(),
{
    if tags.len() > 0 {
        let init = tags.drop_last();
        assert(is_normalized(init)) by {
            assert forall|i: int| 0 <= i < init.len() implies #[trigger] norm_tag(init[i])
                == init[i] by {
                assert(init[i] == tags[i]);
            }
            assert forall|i: int, j: int| 0 <= i < j < init.len() implies init[i]
                != init[j] by {
                assert(init[i] == tags[i] && init[j] == tags[j]);
            }
            assert forall|i: int| 0 <= i < init.len() implies #[trigger] init[i].len() > 0 by {
                assert(init[i] == tags[i]);
            }
        }
        lemma_normalize_idempotent(init);
        let last = tags.last();
        assert(norm_tag(last) == last);
        assert(!init.contains(last)) by {
            if init.contains(last) {
                let k = choose|k: int| 0 <= k < init.len() && init[k] == last;
                assert(tags[k] == tags[tags.len() - 1]);
            }
        }
        assert(init.push(last) =~= tags);
    }
}

} // verus!
