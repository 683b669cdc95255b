use vstd::prelude::*;
use crate::format::{is_supported_format, is_taggable_path};
use crate::tags::{contains_tag, distinct_tags, tags_view};
use crate::viewer::{sort_paths, sorted_paths};

verus! {

/// The paths of `entries` that carry tags and whose tags hold `tag`, in order.
pub open spec fn tagged_with(entries: Seq<String>, lists: Seq<Seq<Seq<char>>>, tag: Seq<char>) -> Seq<String>
    decreases entries.len(),
{
    if entries.len() == 0 || lists.len() != entries.len() {
        Seq::empty()
    } else {
        let r = tagged_with(entries.drop_last(), lists.drop_last(), tag);
        if is_taggable_path(entries.last()@) && lists.last().contains(tag) {
            r.push(entries.last())
        } else {
            r
        }
    }
}

/// Some of the first `n` entries carries tags and holds `x`.
pub open spec fn held_by_some(entries: Seq<String>, lists: Seq<Vec<String>>, n: int, x: Seq<char>) -> bool {
    exists|k: int| 0 <= k < n && is_taggable_path(entries[k]@) && tags_view(lists[k]@).contains(x)
}

pub open spec fn lists_view(lists: Seq<Vec<String>>) -> Seq<Seq<Seq<char>>> {
    lists.map_values(|l: Vec<String>| tags_view(l@))
}

/// The entries of a directory that carry tags and hold `tag`, sorted;
/// `tag_lists[i]` are the tags read from `entries[i]`.
pub fn find_images_with_tag(entries: &Vec<String>, tag_lists: &Vec<Vec<String>>, tag: &str) -> (r: Vec<String>)
    requires
        entries@.len() == tag_lists@.len(),
    ensures
        r@.to_multiset() == tagged_with(entries@, lists_view(tag_lists@), tag@).to_multiset(),
        sorted_paths(r@),
{
    let t = String::from_str(tag);
    let mut found: Vec<String> = Vec::new();
    let mut i: usize = 0;
    while i < entries.len()
        invariant
            i <= entries@.len() == tag_lists@.len(),
            t@ == tag@,
            found@ == tagged_with(
                entries@.subrange(0, i as int),
                lists_view(tag_lists@).subrange(0, i as int),
                tag@,
            ),
        decreases entries@.len() - i,
    {
        assert(entries@.subrange(0, i as int + 1).drop_last() =~= entries@.subrange(0, i as int));
        assert(lists_view(tag_lists@).subrange(0, i as int + 1).drop_last() =~= lists_view(
            tag_lists@,
        ).subrange(0, i as int));
        if is_supported_format(entries[i].as_str()) && contains_tag(&tag_lists[i], &t) {
            found.push(entries[i].clone());
        }
        i += 1;
    }
    assert(entries@.subrange(0, entries@.len() as int) =~= entries@);
    assert(lists_view(tag_lists@).subrange(0, entries@.len() as int) =~= lists_view(tag_lists@));
    sort_paths(&mut found);
    found
}

/// Every tag that some entry carrying tags holds, each once; `tag_lists[i]`
/// are the tags read from `entries[i]`.
pub fn collect_all_tags(entries: &Vec<String>, tag_lists: &Vec<Vec<String>>) -> (r: Vec<String>)
    requires
        entries@.len() == tag_lists@.len(),
    ensures
        distinct_tags(tags_view(r@)),
        forall|x: Seq<char>|
            tags_view(r@).contains(x) <==> held_by_some(entries@, tag_lists@, entries@.len() as int, x),
{
    let mut all: Vec<String> = Vec::new();
    let mut i: usize = 0;
    while i < entries.len()
        invariant
            i <= entries@.len() == tag_lists@.len(),
            distinct_tags(tags_view(all@)),
            forall|x: Seq<char>|
                tags_view(all@).contains(x) <==> held_by_some(entries@, tag_lists@, i as int, x),
        decreases entries@.len() - i,
    {
        if is_supported_format(entries[i].as_str()) {
            let list = &tag_lists[i];
            let mut j: usize = 0;
            while j < list.len()
                invariant
                    i < entries@.len() == tag_lists@.len(),
                    list == tag_lists@[i as int],
                    is_taggable_path(entries@[i as int]@),
                    j <= list@.len(),
                    distinct_tags(tags_view(all@)),
                    forall|x: Seq<char>|
                        tags_view(all@).contains(x) <==> (held_by_some(entries@, tag_lists@, i as int, x)) || tags_view(list@.subrange(0, j as int)).contains(x),
                decreases list@.len() - j,
            {
                let ghost before = tags_view(all@);
                let ghost seen = tags_view(list@.subrange(0, j as int));
                let ghost seen2 = tags_view(list@.subrange(0, j as int + 1));
                assert(seen2 =~= seen.push(list@[j as int]@));
                if !contains_tag(&all, &list[j]) {
                    all.push(list[j].clone());
                    assert(tags_view(all@) =~= before.push(list@[j as int]@));
                }
                assert forall|x: Seq<char>| tags_view(all@).contains(x) <==> (before.contains(x) || x == list@[j as int]@) by {
                    if tags_view(all@).contains(x) && tags_view(all@).len() > before.len() {
                        let k = choose|k: int| 0 <= k < tags_view(all@).len() && tags_view(all@)[k] == x;
                        if k < before.len() {
                            assert(before[k] == x);
                        }
                    }
                    if before.contains(x) && tags_view(all@).len() > before.len() {
                        let k = choose|k: int| 0 <= k < before.len() && before[k] == x;
                        assert(tags_view(all@)[k] == x);
                    }
                    if x == list@[j as int]@ && tags_view(all@).len() > before.len() {
                        assert(tags_view(all@)[before.len() as int] == x);
                    }
                }
                assert forall|x: Seq<char>| seen2.contains(x) <==> (seen.contains(x) || x == list@[j as int]@) by {
                    if seen2.contains(x) {
                        let k = choose|k: int| 0 <= k < seen2.len() && seen2[k] == x;
                        if k < seen.len() {
                            assert(seen[k] == x);
                        }
                    }
                    if seen.contains(x) {
                        let k = choose|k: int| 0 <= k < seen.len() && seen[k] == x;
                        assert(seen2[k] == x);
                    }
                    if x == list@[j as int]@ {
                        assert(seen2[seen.len() as int] == x);
                    }
                }
                assert forall|x: Seq<char>|
                    tags_view(all@).contains(x) <==> (held_by_some(entries@, tag_lists@, i as int, x)) || tags_view(list@.subrange(0, j as int + 1)).contains(x) by {
                    assert(tags_view(all@).contains(x) <==> (before.contains(x) || x == list@[j as int]@));
                    assert(seen2.contains(x) <==> (seen.contains(x) || x == list@[j as int]@));
                }
                j += 1;
            }
            assert(list@.subrange(0, list@.len() as int) =~= list@);
            assert forall|x: Seq<char>| tags_view(all@).contains(x) <==> held_by_some(entries@, tag_lists@, i + 1, x) by {
                if tags_view(list@).contains(x) {
                    assert(0 <= i < i + 1 && is_taggable_path(entries@[i as int]@) && tags_view(tag_lists@[i as int]@).contains(x));
                }
                if held_by_some(entries@, tag_lists@, i + 1, x) {
                    let k = choose|k: int| 0 <= k < i + 1 && is_taggable_path(entries@[k]@) && tags_view(tag_lists@[k]@).contains(x);
                    if k < i {
                        assert(held_by_some(entries@, tag_lists@, i as int, x));
                    }
                }
            }
        }
        i += 1;
    }
    all
}

} // verus!
