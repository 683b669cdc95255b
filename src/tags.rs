use vstd::prelude::*;
use crate::text::{trim, trim_text, lemma_trim_is_trimmed, lemma_trimmed_is_fixed};

verus! {

/// The texts of a list of tags.
pub open spec fn tags_view(v: Seq<String>) -> Seq<Seq<char>> {
    v.map_values(|s: String| s@)
}

/// `ts` after adding `tag`: its trimmed form goes at the end, unless it is
/// empty or already there.
pub open spec fn with_tag(ts: Seq<Seq<char>>, tag: Seq<char>) -> Seq<Seq<char>> {
    let t = trim(tag);
    if t.len() == 0 || ts.contains(t) {
        ts
    } else {
        ts.push(t)
    }
}

/// `ts` with every tag equal to `t` left out, the others in order.
pub open spec fn without_tag(ts: Seq<Seq<char>>, t: Seq<char>) -> Seq<Seq<char>>
    decreases ts.len(),
{
    if ts.len() == 0 {
        ts
    } else {
        let r = without_tag(ts.drop_last(), t);
        if ts.last() == t {
            r
        } else {
            r.push(ts.last())
        }
    }
}

/// `ts` after toggling `tag`, and whether the tag was added.
pub open spec fn toggled(ts: Seq<Seq<char>>, tag: Seq<char>) -> (Seq<Seq<char>>, bool) {
    let t = trim(tag);
    if ts.contains(t) {
        (without_tag(ts, t), false)
    } else {
        (with_tag(ts, t), true)
    }
}

/// No tag occurs twice.
pub open spec fn distinct_tags(ts: Seq<Seq<char>>) -> bool {
    forall|i: int, j: int| 0 <= i < j < ts.len() ==> ts[i] != ts[j]
}

/// Whether `tags` holds a tag equal to `t`.
pub fn contains_tag(tags: &Vec<String>, t: &String) -> (r: bool)
    ensures
        r == tags_view(tags@).contains(t@),
{
    let mut i: usize = 0;
    while i < tags.len()
        invariant
            i <= tags@.len(),
            forall|k: int| 0 <= k < i ==> tags@[k]@ != t@,
        decreases tags@.len() - i,
    {
        if tags[i] == *t {
            assert(tags_view(tags@)[i as int] == t@);
            return true;
        }
        i += 1;
    }
    proof {
        if tags_view(tags@).contains(t@) {
            let k = choose|k: int| 0 <= k < tags_view(tags@).len() && tags_view(tags@)[k] == t@;
            assert(tags@[k]@ == t@);
        }
    }
    false
}

/// Adds `tag`, trimmed, at the end, unless it is empty or already present.
pub fn add_tag(tags: &mut Vec<String>, tag: &str)
    ensures
        tags_view(final(tags)@) == with_tag(tags_view(old(tags)@), tag@),
{
    let t = trim_text(tag);
    if t.unicode_len() != 0 && !contains_tag(tags, &t) {
        tags.push(t);
        assert(tags_view(tags@) =~= tags_view(old(tags)@).push(t@));
    }
}

/// Removes every tag equal to `tag`.
pub fn remove_tag(tags: &mut Vec<String>, tag: &str)
    ensures
        tags_view(final(tags)@) == without_tag(tags_view(old(tags)@), tag@),
{
    let t = String::from_str(tag);
    let mut kept: Vec<String> = Vec::new();
    let mut i: usize = 0;
    while i < tags.len()
        invariant
            i <= tags@.len(),
            t@ == tag@,
            tags_view(kept@) == without_tag(tags_view(tags@.subrange(0, i as int)), tag@),
        decreases tags@.len() - i,
    {
        let ghost before = tags_view(tags@.subrange(0, i as int));
        assert(tags_view(tags@.subrange(0, i as int + 1)).drop_last() =~= before);
        if tags[i] != t {
            kept.push(tags[i].clone());
            assert(tags_view(kept@) =~= without_tag(before, tag@).push(tags@[i as int]@));
        }
        i += 1;
    }
    assert(tags@.subrange(0, tags@.len() as int) =~= tags@);
    *tags = kept;
}

/// Removes the trimmed `tag` where present, else adds it; returns whether it
/// was added.
pub fn toggle_tag(tags: &mut Vec<String>, tag: &str) -> (added: bool)
    ensures
        (tags_view(final(tags)@), added) == toggled(tags_view(old(tags)@), tag@),
{
    let t = trim_text(tag);
    proof {
        lemma_trim_is_trimmed(tag@);
        lemma_trimmed_is_fixed(t@);
    }
    if contains_tag(tags, &t) {
        remove_tag(tags, t.as_str());
        false
    } else {
        add_tag(tags, t.as_str());
        true
    }
}

/// A tag is in `without_tag(ts, t)` exactly when it is in `ts` and is not `t`.
pub proof fn lemma_without_tag_contains(ts: Seq<Seq<char>>, t: Seq<char>, x: Seq<char>)
    ensures
        without_tag(ts, t).contains(x) == (ts.contains(x) && x != t),
    decreases ts.len(),
{
    if ts.len() > 0 {
        let init = ts.drop_last();
        lemma_without_tag_contains(init, t, x);
        assert(ts =~= init.push(ts.last()));
        if ts.contains(x) && x != ts.last() {
            let k = choose|k: int| 0 <= k < ts.len() && ts[k] == x;
            assert(init[k] == x);
        }
        if init.contains(x) {
            let k = choose|k: int| 0 <= k < init.len() && init[k] == x;
            assert(ts[k] == x);
        }
        let r = without_tag(init, t);
        if ts.last() != t && r.contains(x) {
            let k = choose|k: int| 0 <= k < r.len() && r[k] == x;
            assert(r.push(ts.last())[k] == x);
        }
        if ts.last() != t {
            assert(r.push(ts.last())[r.len() as int] == ts.last());
        }
    }
}

/// Removing a tag that is absent changes nothing.
pub proof fn lemma_without_absent(ts: Seq<Seq<char>>, t: Seq<char>)
    requires
        !ts.contains(t),
    ensures
        without_tag(ts, t) == ts,
    decreases ts.len(),
{
    if ts.len() > 0 {
        let init = ts.drop_last();
        if init.contains(t) {
            let k = choose|k: int| 0 <= k < init.len() && init[k] == t;
            assert(ts[k] == t);
        }
        lemma_without_absent(init, t);
        assert(ts[ts.len() - 1] == ts.last());
        assert(init.push(ts.last()) =~= ts);
    }
}

/// Adding a tag whose trimmed form is already present leaves the list as it is.
pub proof fn lemma_add_present_is_noop(ts: Seq<Seq<char>>, tag: Seq<char>)
    requires
        ts.contains(trim(tag)),
    ensures
        with_tag(ts, tag) == ts,
{
}

/// Toggling a tag twice gives back a list with the same tags; where the
/// tag was absent, the very same list.
pub proof fn lemma_toggle_twice(ts: Seq<Seq<char>>, tag: Seq<char>)
    requires
        trim(tag).len() > 0,
    ensures
        ({
            let once = toggled(ts, tag).0;
            let twice = toggled(once, tag).0;
            &&& forall|x: Seq<char>| twice.contains(x) == ts.contains(x)
            &&& !ts.contains(trim(tag)) ==> twice == ts
        }),
{
    let t = trim(tag);
    let once = toggled(ts, tag).0;
    let twice = toggled(once, tag).0;
    lemma_trim_is_trimmed(tag);
    lemma_trimmed_is_fixed(t);
    if ts.contains(t) {
        lemma_without_tag_contains(ts, t, t);
        assert(twice == once.push(t));
        assert forall|x: Seq<char>| twice.contains(x) == ts.contains(x) by {
            lemma_without_tag_contains(ts, t, x);
            if once.contains(x) {
                let k = choose|k: int| 0 <= k < once.len() && once[k] == x;
                assert(twice[k] == x);
            }
            assert(twice[once.len() as int] == t);
            if twice.contains(x) && x != t {
                let k = choose|k: int| 0 <= k < twice.len() && twice[k] == x;
                assert(once[k] == x);
            }
        }
    } else {
        assert(once == ts.push(t));
        assert(once[ts.len() as int] == t);
        assert(once.drop_last() =~= ts);
        lemma_without_absent(ts, t);
    }
}

/// Removing a tag leaves the list as long only where it was absent.
pub proof fn lemma_without_len(ts: Seq<Seq<char>>, t: Seq<char>)
    ensures
        without_tag(ts, t).len() <= ts.len(),
        without_tag(ts, t).len() == ts.len() ==> without_tag(ts, t) == ts,
    decreases ts.len(),
{
    if ts.len() > 0 {
        lemma_without_len(ts.drop_last(), t);
        if without_tag(ts, t).len() == ts.len() {
            assert(ts.drop_last().push(ts.last()) =~= ts);
        }
    }
}

/// Removing a tag keeps a list without duplicates so.
pub proof fn lemma_without_keeps_distinct(ts: Seq<Seq<char>>, t: Seq<char>)
    requires
        distinct_tags(ts),
    ensures
        distinct_tags(without_tag(ts, t)),
    decreases ts.len(),
{
    if ts.len() > 0 {
        let init = ts.drop_last();
        assert(distinct_tags(init));
        lemma_without_keeps_distinct(init, t);
        let r = without_tag(init, t);
        if ts.last() != t {
            assert(!init.contains(ts.last())) by {
                if init.contains(ts.last()) {
                    let k = choose|k: int| 0 <= k < init.len() && init[k] == ts.last();
                    assert(ts[k] == ts[ts.len() - 1]);
                }
            }
            lemma_without_tag_contains(init, t, ts.last());
            assert forall|i: int, j: int| 0 <= i < j < r.push(ts.last()).len() implies r.push(ts.last())[i] != r.push(ts.last())[j] by {
                if j == r.len() {
                    assert(r[i] == r.push(ts.last())[i]);
                }
            }
        }
    }
}

/// Adding, removing and toggling keep a list without duplicates so.
pub proof fn lemma_edits_keep_distinct(ts: Seq<Seq<char>>, tag: Seq<char>)
    requires
        distinct_tags(ts),
    ensures
        distinct_tags(with_tag(ts, tag)),
        distinct_tags(without_tag(ts, tag)),
        distinct_tags(toggled(ts, tag).0),
{
    let t = trim(tag);
    lemma_without_keeps_distinct(ts, tag);
    lemma_without_keeps_distinct(ts, t);
    if t.len() > 0 && !ts.contains(t) {
        let r = ts.push(t);
        assert forall|i: int, j: int| 0 <= i < j < r.len() implies r[i] != r[j] by {
            if j == ts.len() {
                assert(ts[i] == r[i]);
            }
        }
    }
}

} // verus!
