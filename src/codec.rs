use vstd::prelude::*;
use vstd::utf8::{decode_utf8, encode_utf8, valid_utf8};
use crate::format::{is_supported_format, is_taggable_path};
use crate::tags::tags_view;
use crate::text::{chars_of, is_trimmed, lemma_trimmed_is_fixed, string_of, trim, trim_chars};

verus! {

/// Marker that other tools put before a comment in ASCII.
pub open spec fn ascii_marker() -> Seq<char> {
    seq!['A', 'S', 'C', 'I', 'I']
}

/// Marker that other tools put before a comment in UTF-16.
pub open spec fn unicode_marker() -> Seq<char> {
    seq!['U', 'N', 'I', 'C', 'O', 'D', 'E']
}

pub open spec fn starts_with(s: Seq<char>, p: Seq<char>) -> bool {
    p.len() <= s.len() && s.subrange(0, p.len() as int) == p
}

/// Length of the character-set identifier that precedes a marked comment.
pub const MARKER_LEN: usize = 8;

/// `s` without its first eight characters where it starts with a marker.
pub open spec fn strip_marker(s: Seq<char>) -> Seq<char> {
    if starts_with(s, ascii_marker()) || starts_with(s, unicode_marker()) {
        if s.len() <= MARKER_LEN {
            Seq::empty()
        } else {
            s.subrange(MARKER_LEN as int, s.len() as int)
        }
    } else {
        s
    }
}

/// `s` without its NUL characters.
pub open spec fn strip_nul(s: Seq<char>) -> Seq<char>
    decreases s.len(),
{
    if s.len() == 0 {
        s
    } else {
        let r = strip_nul(s.drop_last());
        if s.last() == '\0' {
            r
        } else {
            r.push(s.last())
        }
    }
}

/// `done` with the piece `cur` appended, trimmed, unless that leaves it empty.
pub open spec fn push_piece(done: Seq<Seq<char>>, cur: Seq<char>) -> Seq<Seq<char>> {
    let t = trim(cur);
    if t.len() == 0 {
        done
    } else {
        done.push(t)
    }
}

/// Reading `s` from the left: the tags of the pieces closed by a `;`, and
/// the piece still open.
pub open spec fn split_fold(s: Seq<char>) -> (Seq<Seq<char>>, Seq<char>)
    decreases s.len(),
{
    if s.len() == 0 {
        (Seq::empty(), Seq::empty())
    } else {
        let (done, cur) = split_fold(s.drop_last());
        if s.last() == ';' {
            (push_piece(done, cur), Seq::empty())
        } else {
            (done, cur.push(s.last()))
        }
    }
}

/// The pieces of `s` between `;`s, trimmed, the empty ones left out.
pub open spec fn split_tags(s: Seq<char>) -> Seq<Seq<char>> {
    push_piece(split_fold(s).0, split_fold(s).1)
}

/// The tags that a comment field's text holds.
pub open spec fn tags_of_text(text: Seq<char>) -> Seq<Seq<char>> {
    split_tags(strip_nul(strip_marker(trim(text))))
}

/// The tags joined with `;` between them.
pub open spec fn join(ts: Seq<Seq<char>>) -> Seq<char>
    decreases ts.len(),
{
    if ts.len() == 0 {
        Seq::empty()
    } else if ts.len() == 1 {
        ts[0]
    } else {
        join(ts.drop_last()) + seq![';'] + ts.last()
    }
}

/// What `String::from_utf8_lossy` makes of a byte string.
pub uninterp spec fn lossy_text(b: Seq<u8>) -> Seq<char>;

/// Relies on `String::from_utf8_lossy`: its result depends on the bytes
/// alone, and valid UTF-8 comes back decoded as it is.
#[verifier::external_body]
fn utf8_lossy(b: &[u8]) -> (r: String)
    ensures
        r@ == lossy_text(b@),
        valid_utf8(b@) ==> r@ == decode_utf8(b@),
{
    String::from_utf8_lossy(b).into_owned()
}

fn starts_with_ascii_marker(s: &Vec<char>) -> (r: bool)
    ensures
        r == starts_with(s@, ascii_marker()),
{
    let r = s.len() >= 5 && s[0] == 'A' && s[1] == 'S' && s[2] == 'C' && s[3] == 'I' && s[4]
        == 'I';
    proof {
        if r {
            assert(s@.subrange(0, 5) =~= ascii_marker());
        } else if s@.len() >= 5 && starts_with(s@, ascii_marker()) {
            let p = s@.subrange(0, 5);
            assert(p[0] == 'A' && p[1] == 'S' && p[2] == 'C' && p[3] == 'I' && p[4] == 'I');
        }
    }
    r
}

fn starts_with_unicode_marker(s: &Vec<char>) -> (r: bool)
    ensures
        r == starts_with(s@, unicode_marker()),
{
    let r = s.len() >= 7 && s[0] == 'U' && s[1] == 'N' && s[2] == 'I' && s[3] == 'C' && s[4]
        == 'O' && s[5] == 'D' && s[6] == 'E';
    proof {
        if r {
            assert(s@.subrange(0, 7) =~= unicode_marker());
        } else if s@.len() >= 7 && starts_with(s@, unicode_marker()) {
            let p = s@.subrange(0, 7);
            assert(p[0] == 'U' && p[1] == 'N' && p[2] == 'I' && p[3] == 'C' && p[4] == 'O' && p[5]
                == 'D' && p[6] == 'E');
        }
    }
    r
}

fn strip_marker_chars(s: Vec<char>) -> (r: Vec<char>)
    ensures
        r@ == strip_marker(s@),
{
    if starts_with_ascii_marker(&s) || starts_with_unicode_marker(&s) {
        if s.len() <= MARKER_LEN {
            Vec::new()
        } else {
            crate::text::slice_chars(&s, MARKER_LEN, s.len())
        }
    } else {
        s
    }
}

fn strip_nul_chars(s: &Vec<char>) -> (r: Vec<char>)
    ensures
        r@ == strip_nul(s@),
{
    let mut r: Vec<char> = Vec::new();
    let mut i: usize = 0;
    while i < s.len()
        invariant
            i <= s@.len(),
            r@ == strip_nul(s@.subrange(0, i as int)),
        decreases s@.len() - i,
    {
        assert(s@.subrange(0, i as int + 1).drop_last() =~= s@.subrange(0, i as int));
        if s[i] != '\0' {
            r.push(s[i]);
        }
        i += 1;
    }
    assert(s@.subrange(0, s@.len() as int) =~= s@);
    r
}

fn push_piece_exec(done: &mut Vec<String>, cur: &Vec<char>)
    ensures
        tags_view(final(done)@) == push_piece(tags_view(old(done)@), cur@),
{
    let t = trim_chars(cur);
    if t.len() != 0 {
        let s = string_of(t.as_slice());
        done.push(s);
        assert(tags_view(done@) =~= tags_view(old(done)@).push(t@));
    }
}

fn split_tags_chars(s: &Vec<char>) -> (r: Vec<String>)
    ensures
        tags_view(r@) == split_tags(s@),
{
    let mut done: Vec<String> = Vec::new();
    let mut cur: Vec<char> = Vec::new();
    let mut i: usize = 0;
    assert(tags_view(done@) =~= Seq::<Seq<char>>::empty());
    while i < s.len()
        invariant
            i <= s@.len(),
            (tags_view(done@), cur@) == split_fold(s@.subrange(0, i as int)),
        decreases s@.len() - i,
    {
        assert(s@.subrange(0, i as int + 1).drop_last() =~= s@.subrange(0, i as int));
        if s[i] == ';' {
            push_piece_exec(&mut done, &cur);
            cur = Vec::new();
        } else {
            cur.push(s[i]);
        }
        i += 1;
    }
    assert(s@.subrange(0, s@.len() as int) =~= s@);
    push_piece_exec(&mut done, &cur);
    done
}

/// The tags in the text of a comment field: trimmed, a leading character-set
/// identifier and all NULs removed, split at `;`, each piece trimmed, empty
/// pieces left out. Duplicates are kept.
pub fn decode_text(text: &str) -> (r: Vec<String>)
    ensures
        tags_view(r@) == tags_of_text(text@),
{
    let c = chars_of(text);
    let t = trim_chars(&c);
    let m = strip_marker_chars(t);
    let n = strip_nul_chars(&m);
    split_tags_chars(&n)
}

/// The tags in the raw bytes of a comment field, read as UTF-8 where
/// invalid sequences are replaced.
pub fn decode_comment(data: &[u8]) -> (r: Vec<String>)
    ensures
        tags_view(r@) == tags_of_text(lossy_text(data@)),
        valid_utf8(data@) ==> tags_view(r@) == tags_of_text(decode_utf8(data@)),
{
    let text = utf8_lossy(data);
    decode_text(text.as_str())
}

/// The comment text for `tags`: joined with `;`, with no marker before it.
pub fn encode_text(tags: &Vec<String>) -> (r: String)
    ensures
        r@ == join(tags_view(tags@)),
{
    let mut r = String::new();
    let mut i: usize = 0;
    while i < tags.len()
        invariant
            i <= tags@.len(),
            r@ == join(tags_view(tags@.subrange(0, i as int))),
        decreases tags@.len() - i,
    {
        let ghost prev = tags_view(tags@.subrange(0, i as int));
        let ghost next = tags_view(tags@.subrange(0, i as int + 1));
        assert(next.drop_last() =~= prev);
        assert(next.last() == tags@[i as int]@);
        if i > 0 {
            r.append(";");
            proof {
                reveal_strlit(";");
            }
        }
        r.append(tags[i].as_str());
        proof {
            if i == 0 {
                assert(r@ =~= next[0]);
            } else {
                assert(r@ =~= join(prev) + seq![';'] + next.last());
            }
        }
        i += 1;
    }
    assert(tags@.subrange(0, tags@.len() as int) =~= tags@);
    r
}

/// The bytes to store in the comment field for `tags`: the UTF-8 of their
/// joined text.
pub fn encode_comment(tags: &Vec<String>) -> (r: Vec<u8>)
    ensures
        r@ == encode_utf8(join(tags_view(tags@))),
{
    let s = encode_text(tags);
    s.as_str().as_bytes_vec()
}

/// Why tags could not be stored.
pub enum TagError {
    /// The file's format cannot carry embedded tags.
    UnsupportedFormat,
    /// Reading or writing the file failed, with the reason.
    Io(String),
}

/// The tags of the image at `path`, given the raw comment field of its
/// metadata where one could be read. A format that carries no tags, or a
/// file without a readable comment, has none.
pub fn load_tags(path: &str, comment: Option<Vec<u8>>) -> (r: Vec<String>)
    ensures
        !is_taggable_path(path@) ==> r@.len() == 0,
        is_taggable_path(path@) ==> match comment {
            Some(b) => {
                &&& tags_view(r@) == tags_of_text(lossy_text(b@))
                &&& valid_utf8(b@) ==> tags_view(r@) == tags_of_text(decode_utf8(b@))
            },
            None => r@.len() == 0,
        },
{
    if !is_supported_format(path) {
        return Vec::new();
    }
    match comment {
        Some(b) => decode_comment(b.as_slice()),
        None => Vec::new(),
    }
}

/// The comment field to write into the image at `path` for `tags`, or
/// `UnsupportedFormat` where its format carries no tags.
pub fn save_tags(path: &str, tags: &Vec<String>) -> (r: Result<Vec<u8>, TagError>)
    ensures
        match r {
            Ok(b) => is_taggable_path(path@) && b@ == encode_utf8(join(tags_view(tags@))),
            Err(e) => !is_taggable_path(path@) && e is UnsupportedFormat,
        },
{
    if !is_supported_format(path) {
        return Err(TagError::UnsupportedFormat);
    }
    Ok(encode_comment(tags))
}

/// Tags that survive being stored: each non-empty, trimmed, without `;` or
/// NUL, and the first not starting with a character-set marker.
pub open spec fn storable(ts: Seq<Seq<char>>) -> bool {
    &&& forall|i: int|
        0 <= i < ts.len() ==> {
            &&& ts[i].len() > 0
            &&& is_trimmed(ts[i])
            &&& !ts[i].contains(';')
            &&& !ts[i].contains('\0')
        }
    &&& ts.len() > 0 ==> !starts_with(ts[0], ascii_marker()) && !starts_with(ts[0], unicode_marker())
}

proof fn lemma_fold_extend(s: Seq<char>, c: Seq<char>)
    requires
        !c.contains(';'),
    ensures
        split_fold(s + c) == (split_fold(s).0, split_fold(s).1 + c),
    decreases c.len(),
{
    if c.len() == 0 {
        assert(s + c =~= s);
        assert(split_fold(s).1 + c =~= split_fold(s).1);
    } else {
        let init = c.drop_last();
        if init.contains(';') {
            let k = choose|k: int| 0 <= k < init.len() && init[k] == ';';
            assert(c[k] == ';');
        }
        lemma_fold_extend(s, init);
        assert((s + c).drop_last() =~= s + init);
        assert(c[c.len() - 1] == c.last());
        assert((s + c).last() == c.last());
        assert((split_fold(s).1 + init).push(c.last()) =~= split_fold(s).1 + c);
    }
}

proof fn lemma_join_shape(ts: Seq<Seq<char>>)
    requires
        ts.len() > 0,
        forall|i: int| 0 <= i < ts.len() ==> ts[i].len() > 0 && !ts[i].contains('\0'),
    ensures
        join(ts).len() >= ts[0].len(),
        join(ts).subrange(0, ts[0].len() as int) == ts[0],
        ts.len() > 1 ==> join(ts).len() > ts[0].len() && join(ts)[ts[0].len() as int] == ';',
        join(ts).len() > 0,
        join(ts).last() == ts.last().last(),
        !join(ts).contains('\0'),
    decreases ts.len(),
{
    if ts.len() == 1 {
        assert(join(ts).subrange(0, ts[0].len() as int) =~= ts[0]);
    } else {
        let init = ts.drop_last();
        lemma_join_shape(init);
        let j = join(init);
        let whole = j + seq![';'] + ts.last();
        assert(join(ts) == whole);
        assert(init[0] == ts[0]);
        if init.len() > 1 {
            assert(whole[ts[0].len() as int] == j[ts[0].len() as int]);
        }
        assert(whole.subrange(0, ts[0].len() as int) =~= j.subrange(0, ts[0].len() as int));
        assert(whole.last() == ts.last()[ts.last().len() - 1]);
        if whole.contains('\0') {
            let k = choose|k: int| 0 <= k < whole.len() && whole[k] == '\0';
            if k < j.len() {
                assert(j[k] == '\0');
            } else if k > j.len() {
                assert(ts.last()[k - j.len() - 1] == '\0');
                assert(ts[ts.len() - 1].contains('\0'));
            }
        }
    }
}

proof fn lemma_strip_nul_none(s: Seq<char>)
    requires
        !s.contains('\0'),
    ensures
        strip_nul(s) == s,
    decreases s.len(),
{
    if s.len() > 0 {
        let init = s.drop_last();
        if init.contains('\0') {
            let k = choose|k: int| 0 <= k < init.len() && init[k] == '\0';
            assert(s[k] == '\0');
        }
        lemma_strip_nul_none(init);
        assert(s[s.len() - 1] == s.last());
        assert(init.push(s.last()) =~= s);
    }
}

proof fn lemma_fold_join(ts: Seq<Seq<char>>)
    requires
        ts.len() > 0,
        storable(ts),
    ensures
        split_fold(join(ts)) == (ts.drop_last(), ts.last()),
    decreases ts.len(),
{
    if ts.len() == 1 {
        lemma_fold_extend(Seq::empty(), ts[0]);
        assert(Seq::<char>::empty() + ts[0] =~= ts[0]);
        assert(Seq::<char>::empty() + ts[0] =~= ts.last());
        assert(ts.drop_last() =~= Seq::<Seq<char>>::empty());
    } else {
        let init = ts.drop_last();
        assert(init[0] == ts[0]);
        assert(storable(init));
        lemma_fold_join(init);
        let j = join(init);
        let semi = j.push(';');
        assert(semi.drop_last() =~= j);
        lemma_trimmed_is_fixed(init.last());
        assert(init.drop_last().push(init.last()) =~= init);
        assert(split_fold(semi) == (init, Seq::<char>::empty()));
        assert(!ts.last().contains(';'));
        lemma_fold_extend(semi, ts.last());
        assert(semi + ts.last() =~= j + seq![';'] + ts.last());
        assert(Seq::<char>::empty() + ts.last() =~= ts.last());
    }
}

/// Storing tags and reading them back gives the same tags in the same order.
pub proof fn lemma_round_trip(ts: Seq<Seq<char>>)
    requires
        storable(ts),
    ensures
        valid_utf8(encode_utf8(join(ts))),
        tags_of_text(decode_utf8(encode_utf8(join(ts)))) == ts,
{
    vstd::utf8::encode_utf8_valid_utf8(join(ts));
    vstd::utf8::encode_utf8_decode_utf8(join(ts));
    if ts.len() == 0 {
        assert(join(ts) == Seq::<char>::empty());
        assert(trim(join(ts)) == join(ts));
        assert(split_fold(Seq::<char>::empty()).1 == Seq::<char>::empty());
        assert(trim(Seq::<char>::empty()) == Seq::<char>::empty());
        assert(strip_nul(Seq::<char>::empty()) == Seq::<char>::empty());
    } else {
        let s = join(ts);
        lemma_join_shape(ts);
        assert(s[0] == s.subrange(0, ts[0].len() as int)[0]);
        assert(is_trimmed(s));
        lemma_trimmed_is_fixed(s);
        if starts_with(s, ascii_marker()) {
            if ts[0].len() >= 5 {
                assert(ts[0].subrange(0, 5) =~= s.subrange(0, 5));
            } else {
                assert(s.subrange(0, 5)[ts[0].len() as int] == s[ts[0].len() as int]);
            }
        }
        if starts_with(s, unicode_marker()) {
            if ts[0].len() >= 7 {
                assert(ts[0].subrange(0, 7) =~= s.subrange(0, 7));
            } else {
                assert(s.subrange(0, 7)[ts[0].len() as int] == s[ts[0].len() as int]);
            }
        }
        assert(strip_marker(s) == s);
        lemma_strip_nul_none(s);
        lemma_fold_join(ts);
        lemma_trimmed_is_fixed(ts.last());
        assert(ts.drop_last().push(ts.last()) =~= ts);
    }
}

} // verus!
