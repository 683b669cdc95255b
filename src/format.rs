use vstd::prelude::*;
use crate::text::chars_of;

verus! {

/// Position of the last `c` in `s`, or -1.
pub open spec fn last_index_of(s: Seq<char>, c: char) -> int
    decreases s.len(),
{
    if s.len() == 0 {
        -1
    } else if s.last() == c {
        s.len() - 1
    } else {
        last_index_of(s.drop_last(), c)
    }
}

proof fn lemma_last_index_range(s: Seq<char>, c: char)
    ensures
        -1 <= last_index_of(s, c) < s.len(),
    decreases s.len(),
{
    if s.len() > 0 {
        lemma_last_index_range(s.drop_last(), c);
    }
}

/// A path separator: `/`, or `\\` as on Windows.
pub open spec fn is_sep(c: char) -> bool {
    c == '/' || c == '\\'
}

/// `p` without trailing separators and trailing `.` components, which name
/// no file of their own.
pub open spec fn trim_tail(p: Seq<char>) -> Seq<char>
    decreases p.len(),
{
    if p.len() > 0 && (is_sep(p.last()) || (p.last() == '.' && (p.len() == 1 || is_sep(
        p[p.len() - 2],
    )))) {
        trim_tail(p.drop_last())
    } else {
        p
    }
}

/// Position of the last separator in `s`, or -1.
pub open spec fn last_sep(s: Seq<char>) -> int
    decreases s.len(),
{
    if s.len() == 0 {
        -1
    } else if is_sep(s.last()) {
        s.len() - 1
    } else {
        last_sep(s.drop_last())
    }
}

proof fn lemma_last_sep_range(s: Seq<char>)
    ensures
        -1 <= last_sep(s) < s.len(),
    decreases s.len(),
{
    if s.len() > 0 {
        lemma_last_sep_range(s.drop_last());
    }
}

/// The last component of a path, past trailing separators and `.`
/// components; empty where that component is `..` or there is none.
pub open spec fn file_name(p: Seq<char>) -> Seq<char> {
    let t = trim_tail(p);
    let n = t.subrange(last_sep(t) + 1, t.len() as int);
    if n == seq!['.', '.'] {
        Seq::empty()
    } else {
        n
    }
}

fn is_sep_char(c: char) -> (r: bool)
    ensures
        r == is_sep(c),
{
    c == '/' || c == '\\'
}

/// The last component of the path `p`, as `file_name` says.
pub fn file_name_chars(p: &Vec<char>) -> (r: Vec<char>)
    ensures
        r@ == file_name(p@),
{
    let mut end: usize = p.len();
    assert(p@.subrange(0, end as int) =~= p@);
    while end > 0 && (is_sep_char(p[end - 1]) || (p[end - 1] == '.' && (end == 1 || is_sep_char(
        p[end - 2],
    ))))
        invariant
            end <= p@.len(),
            trim_tail(p@) == trim_tail(p@.subrange(0, end as int)),
        decreases end,
    {
        assert(p@.subrange(0, end as int - 1) =~= p@.subrange(0, end as int).drop_last());
        end -= 1;
    }
    let ghost t = p@.subrange(0, end as int);
    proof {
        if end > 0 {
            assert(t.last() == p@[end - 1]);
        }
        if end > 1 {
            assert(t[t.len() - 2] == p@[end - 2]);
        }
        assert(trim_tail(t) == t);
    }
    let mut start: usize = end;
    assert(t.subrange(0, start as int) =~= t);
    while start > 0 && !is_sep_char(p[start - 1])
        invariant
            start <= end <= p@.len(),
            t == p@.subrange(0, end as int),
            last_sep(t) == last_sep(t.subrange(0, start as int)),
        decreases start,
    {
        assert(t.subrange(0, start as int - 1) =~= t.subrange(0, start as int).drop_last());
        start -= 1;
    }
    proof {
        if start > 0 {
            assert(t.subrange(0, start as int).last() == p@[start - 1]);
        }
        lemma_last_sep_range(t);
    }
    let name = crate::text::slice_chars(p, start, end);
    assert(name@ =~= t.subrange(last_sep(t) + 1, t.len() as int));
    if name.len() == 2 && name[0] == '.' && name[1] == '.' {
        assert(name@ =~= seq!['.', '.']);
        Vec::new()
    } else {
        proof {
            if name@ == seq!['.', '.'] {
                assert(name@[0] == '.' && name@[1] == '.');
            }
        }
        name
    }
}

/// The text after the last `.` of the file name, where that `.` is not its
/// first character; none where there is no file name.
pub open spec fn extension(p: Seq<char>) -> Option<Seq<char>> {
    let n = file_name(p);
    let d = last_index_of(n, '.');
    if d <= 0 {
        None
    } else {
        Some(n.subrange(d + 1, n.len() as int))
    }
}

/// `e` spells the word whose lower-case letters are `lo` and upper-case
/// letters are `up`, in any mix of case.
pub open spec fn spells(e: Seq<char>, lo: Seq<char>, up: Seq<char>) -> bool {
    e.len() == lo.len() && forall|i: int| 0 <= i < e.len() ==> e[i] == lo[i] || e[i] == up[i]
}

/// Formats that carry an embedded comment: png, jpg, jpeg, webp.
pub open spec fn is_taggable_ext(e: Seq<char>) -> bool {
    spells(e, seq!['p', 'n', 'g'], seq!['P', 'N', 'G']) || spells(e, seq!['j', 'p', 'g'], seq!['J', 'P', 'G'])
        || spells(e, seq!['j', 'p', 'e', 'g'], seq!['J', 'P', 'E', 'G']) || spells(
        e,
        seq!['w', 'e', 'b', 'p'],
        seq!['W', 'E', 'B', 'P'],
    )
}

/// Formats that can be shown: the taggable ones, gif and bmp.
pub open spec fn is_viewable_ext(e: Seq<char>) -> bool {
    is_taggable_ext(e) || spells(e, seq!['g', 'i', 'f'], seq!['G', 'I', 'F']) || spells(
        e,
        seq!['b', 'm', 'p'],
        seq!['B', 'M', 'P'],
    )
}

pub open spec fn is_taggable_path(p: Seq<char>) -> bool {
    extension(p) is Some && is_taggable_ext(extension(p)->0)
}

pub open spec fn is_viewable_path(p: Seq<char>) -> bool {
    extension(p) is Some && is_viewable_ext(extension(p)->0)
}

/// One past the position of the last `c` in `s`; 0 where there is none.
fn last_index_after(s: &Vec<char>, c: char) -> (r: usize)
    ensures
        r as int == last_index_of(s@, c) + 1,
        r <= s@.len(),
{
    proof {
        lemma_last_index_range(s@, c);
    }
    let mut j: usize = s.len();
    assert(s@.subrange(0, j as int) =~= s@);
    while j > 0 && s[j - 1] != c
        invariant
            j <= s@.len(),
            last_index_of(s@, c) == last_index_of(s@.subrange(0, j as int), c),
        decreases j,
    {
        assert(s@.subrange(0, j as int - 1) =~= s@.subrange(0, j as int).drop_last());
        j -= 1;
    }
    j
}

fn spells_exec(e: &Vec<char>, lo: &Vec<char>, up: &Vec<char>) -> (r: bool)
    requires
        lo@.len() == up@.len(),
    ensures
        r == spells(e@, lo@, up@),
{
    if e.len() != lo.len() {
        return false;
    }
    let mut i: usize = 0;
    while i < e.len()
        invariant
            e@.len() == lo@.len() == up@.len(),
            i <= e@.len(),
            forall|k: int| 0 <= k < i ==> e@[k] == lo@[k] || e@[k] == up@[k],
        decreases e@.len() - i,
    {
        if e[i] != lo[i] && e[i] != up[i] {
            return false;
        }
        i += 1;
    }
    true
}

/// The extension of `path`, if it has one.
fn extension_chars(path: &str) -> (r: Option<Vec<char>>)
    ensures
        match r {
            Some(e) => extension(path@) == Some(e@),
            None => extension(path@) is None,
        },
{
    let p = chars_of(path);
    let name = file_name_chars(&p);
    let after_dot = last_index_after(&name, '.');
    if after_dot <= 1 {
        None
    } else {
        Some(crate::text::slice_chars(&name, after_dot, name.len()))
    }
}

fn has_taggable_ext(e: &Vec<char>) -> (r: bool)
    ensures
        r == is_taggable_ext(e@),
{
    spells_exec(e, &vec!['p', 'n', 'g'], &vec!['P', 'N', 'G']) || spells_exec(e, &vec!['j', 'p', 'g'], &vec!['J', 'P', 'G'])
        || spells_exec(e, &vec!['j', 'p', 'e', 'g'], &vec!['J', 'P', 'E', 'G']) || spells_exec(
        e,
        &vec!['w', 'e', 'b', 'p'],
        &vec!['W', 'E', 'B', 'P'],
    )
}

/// Whether `path` names a format that can carry embedded tags (png, jpg,
/// jpeg, webp), by its extension and regardless of ASCII case.
pub fn is_supported_format(path: &str) -> (r: bool)
    ensures
        r == is_taggable_path(path@),
{
    match extension_chars(path) {
        Some(e) => has_taggable_ext(&e),
        None => false,
    }
}

/// Whether `path` names a format that can be shown (the supported ones, gif
/// and bmp), by its extension and regardless of ASCII case.
pub fn is_image_file(path: &str) -> (r: bool)
    ensures
        r == is_viewable_path(path@),
{
    match extension_chars(path) {
        Some(e) => has_taggable_ext(&e) || spells_exec(&e, &vec!['g', 'i', 'f'], &vec!['G', 'I', 'F'])
            || spells_exec(&e, &vec!['b', 'm', 'p'], &vec!['B', 'M', 'P']),
        None => false,
    }
}

} // verus!
