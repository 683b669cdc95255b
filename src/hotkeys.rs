use vstd::prelude::*;
use crate::tags::tags_view;
use crate::text::{chars_of, lower_of, lowercase};

verus! {

/// A key that can carry a tag: a digit or a lower-case ASCII letter.
pub open spec fn is_key_char(c: char) -> bool {
    ('0' <= c && c <= '9') || ('a' <= c && c <= 'z')
}

/// The key a configured key name stands for: its lower-cased form, where
/// that is a single digit or letter.
pub open spec fn key_of_name(name: Seq<char>) -> Option<char> {
    let l = lower_of(name);
    if l.len() == 1 && is_key_char(l[0]) {
        Some(l[0])
    } else {
        None
    }
}

/// The key that `name` stands for, if any.
pub fn key_from_name(name: &str) -> (r: Option<char>)
    ensures
        r == key_of_name(name@),
{
    let l = lowercase(name);
    let c = chars_of(l.as_str());
    if c.len() == 1 && (('0' <= c[0] && c[0] <= '9') || ('a' <= c[0] && c[0] <= 'z')) {
        Some(c[0])
    } else {
        None
    }
}

/// Tags bound to keys, built once from the configured key names.
pub struct HotkeyTable {
    pub keys: Vec<char>,
    pub tags: Vec<String>,
}

/// The bindings among `pairs` whose key name stands for a key, in order.
pub open spec fn bindings(pairs: Seq<(String, String)>) -> Seq<(char, Seq<char>)>
    decreases pairs.len(),
{
    if pairs.len() == 0 {
        Seq::empty()
    } else {
        let r = bindings(pairs.drop_last());
        match key_of_name(pairs.last().0@) {
            Some(k) => r.push((k, pairs.last().1@)),
            None => r,
        }
    }
}

/// The tags bound to `key`, in order.
pub open spec fn tags_for_key(b: Seq<(char, Seq<char>)>, key: char) -> Seq<Seq<char>>
    decreases b.len(),
{
    if b.len() == 0 {
        Seq::empty()
    } else {
        let r = tags_for_key(b.drop_last(), key);
        if b.last().0 == key {
            r.push(b.last().1)
        } else {
            r
        }
    }
}

impl HotkeyTable {
    pub open spec fn view(&self) -> Seq<(char, Seq<char>)> {
        Seq::new(self.keys@.len(), |i: int| (self.keys@[i], self.tags@[i]@))
    }

    pub open spec fn wf(&self) -> bool {
        self.keys@.len() == self.tags@.len()
    }

    /// The table of the configured `(key name, tag)` pairs; pairs whose name
    /// stands for no key are left out.
    pub fn from_pairs(pairs: &Vec<(String, String)>) -> (r: HotkeyTable)
        ensures
            r.wf(),
            r@ == bindings(pairs@),
    {
        let mut keys: Vec<char> = Vec::new();
        let mut tags: Vec<String> = Vec::new();
        let mut i: usize = 0;
        while i < pairs.len()
            invariant
                i <= pairs@.len(),
                keys@.len() == tags@.len(),
                Seq::new(keys@.len(), |j: int| (keys@[j], tags@[j]@)) == bindings(pairs@.subrange(0, i as int)),
            decreases pairs@.len() - i,
        {
            assert(pairs@.subrange(0, i as int + 1).drop_last() =~= pairs@.subrange(0, i as int));
            let ghost before = Seq::new(keys@.len(), |j: int| (keys@[j], tags@[j]@));
            match key_from_name(pairs[i].0.as_str()) {
                Some(k) => {
                    keys.push(k);
                    tags.push(pairs[i].1.clone());
                    assert(Seq::new(keys@.len(), |j: int| (keys@[j], tags@[j]@)) =~= before.push((k, pairs@[i as int].1@)));
                },
                None => {},
            }
            i += 1;
        }
        assert(pairs@.subrange(0, pairs@.len() as int) =~= pairs@);
        HotkeyTable { keys, tags }
    }

    /// The tags to toggle when `key` is pressed.
    pub fn tags_for(&self, key: char) -> (r: Vec<String>)
        requires
            self.wf(),
        ensures
            tags_view(r@) == tags_for_key(self@, key),
    {
        let mut r: Vec<String> = Vec::new();
        let mut i: usize = 0;
        while i < self.keys.len()
            invariant
                self.wf(),
                i <= self.keys@.len(),
                tags_view(r@) == tags_for_key(self@.subrange(0, i as int), key),
            decreases self.keys@.len() - i,
        {
            assert(self@.subrange(0, i as int + 1).drop_last() =~= self@.subrange(0, i as int));
            if self.keys[i] == key {
                let ghost before = tags_view(r@);
                r.push(self.tags[i].clone());
                assert(tags_view(r@) =~= before.push(self.tags@[i as int]@));
            }
            i += 1;
        }
        assert(self@.subrange(0, self@.len() as int) =~= self@);
        r
    }
}

} // verus!
