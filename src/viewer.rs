use vstd::prelude::*;
use vstd::utf8::encode_utf8;
use crate::format::{is_image_file, is_viewable_path};
use crate::slideshow::opt_view;
use crate::tags::tags_view;
use crate::text::{chars_of, string_of};

verus! {

/// The prefix of a Windows extended-length path, `\\?\`.
pub open spec fn unc_prefix() -> Seq<char> {
    seq!['\\', '\\', '?', '\\']
}

pub open spec fn uri_scheme() -> Seq<char> {
    seq!['f', 'i', 'l', 'e', ':', '/', '/', '/']
}

/// The `file:///` URI of a canonical path: the extended-length prefix
/// dropped and every backslash turned into a slash.
pub open spec fn uri_of(p: Seq<char>) -> Seq<char> {
    let q = if unc_prefix().len() <= p.len() && p.subrange(0, 4) == unc_prefix() {
        p.subrange(4, p.len() as int)
    } else {
        p
    };
    uri_scheme() + q.map_values(|c: char| if c == '\\' { '/' } else { c })
}

/// `a` comes before or equals `b` in the order of their bytes.
pub open spec fn bytes_le(a: Seq<u8>, b: Seq<u8>) -> bool
    decreases a.len(),
{
    if a.len() == 0 {
        true
    } else if b.len() == 0 {
        false
    } else if a[0] != b[0] {
        a[0] < b[0]
    } else {
        bytes_le(a.drop_first(), b.drop_first())
    }
}

/// Paths in the order of their bytes, which is how `String` orders.
pub open spec fn sorted_paths(s: Seq<String>) -> bool {
    forall|i: int, j: int|
        0 <= i < j < s.len() ==> bytes_le(encode_utf8(s[i]@), encode_utf8(s[j]@))
}

/// The paths of `s` that name a viewable image, in order.
pub open spec fn viewable_only(s: Seq<String>) -> Seq<String>
    decreases s.len(),
{
    if s.len() == 0 {
        s
    } else {
        let r = viewable_only(s.drop_last());
        if is_viewable_path(s.last()@) {
            r.push(s.last())
        } else {
            r
        }
    }
}

/// Index of the image after `i` among `n`, round the end.
pub open spec fn next_index(i: int, n: int) -> int {
    (i + 1) % n
}

/// Index of the image before `i` among `n`, round the start.
pub open spec fn prev_index(i: int, n: int) -> int {
    if i > 0 {
        i - 1
    } else {
        n - 1
    }
}

/// Relies on `slice::sort` with `String`'s order: the result is sorted by
/// bytes and holds the same paths.
#[verifier::external_body]
pub(crate) fn sort_paths(v: &mut Vec<String>)
    ensures
        final(v)@.to_multiset() == old(v)@.to_multiset(),
        sorted_paths(final(v)@),
{
    v.sort();
}

/// The `file:///` URI of a canonical path.
pub fn path_to_uri(path: &str) -> (r: String)
    ensures
        r@ == uri_of(path@),
{
    let p = chars_of(path);
    let mut start: usize = 0;
    if p.len() >= 4 && p[0] == '\\' && p[1] == '\\' && p[2] == '?' && p[3] == '\\' {
        assert(p@.subrange(0, 4) =~= unc_prefix());
        start = 4;
    } else {
        proof {
            if p@.len() >= 4 && p@.subrange(0, 4) == unc_prefix() {
                assert(p@.subrange(0, 4)[0] == '\\' && p@.subrange(0, 4)[1] == '\\');
                assert(p@.subrange(0, 4)[2] == '?' && p@.subrange(0, 4)[3] == '\\');
            }
        }
    }
    let ghost q = p@.subrange(start as int, p@.len() as int);
    let mut out: Vec<char> = vec!['f', 'i', 'l', 'e', ':', '/', '/', '/'];
    let mut i: usize = start;
    while i < p.len()
        invariant
            start <= i <= p@.len(),
            q == p@.subrange(start as int, p@.len() as int),
            out@ == uri_scheme() + q.subrange(0, i - start).map_values(
                |c: char| if c == '\\' { '/' } else { c },
            ),
        decreases p@.len() - i,
    {
        let c = p[i];
        out.push(if c == '\\' { '/' } else { c });
        assert(q.subrange(0, i + 1 - start) =~= q.subrange(0, i - start).push(c));
        i += 1;
    }
    assert(q.subrange(0, q.len() as int) =~= q);
    string_of(out.as_slice())
}

/// `next_index` applied `k` times.
pub open spec fn next_n(i: int, n: int, k: nat) -> int
    decreases k,
{
    if k == 0 {
        i
    } else {
        next_n(next_index(i, n), n, (k - 1) as nat)
    }
}

/// `prev_index` applied `k` times.
pub open spec fn prev_n(i: int, n: int, k: nat) -> int
    decreases k,
{
    if k == 0 {
        i
    } else {
        prev_index(prev_n(i, n, (k - 1) as nat), n)
    }
}

/// `k` moves to the next image from `i` among `n` land `k` further on,
/// counted round the list.
pub proof fn lemma_next_n_mod(i: int, n: int, k: nat)
    requires
        0 <= i < n,
    ensures
        next_n(i, n, k) == (i + k) % n,
    decreases k,
{
    if k == 0 {
        vstd::arithmetic::div_mod::lemma_small_mod(i as nat, n as nat);
    } else {
        vstd::arithmetic::div_mod::lemma_mod_bound(i + 1, n);
        lemma_next_n_mod(next_index(i, n), n, (k - 1) as nat);
        vstd::arithmetic::div_mod::lemma_add_mod_noop_right(k - 1, i + 1, n);
    }
}

/// Index of the first `x` in `s`; the length of `s` where it holds none.
pub open spec fn first_index(s: Seq<Seq<char>>, x: Seq<char>) -> int
    decreases s.len(),
{
    if s.len() == 0 || s[0] == x {
        0
    } else {
        1 + first_index(s.drop_first(), x)
    }
}

proof fn lemma_first_index(s: Seq<Seq<char>>, x: Seq<char>, i: int)
    requires
        0 <= i < s.len(),
        s[i] == x,
        forall|k: int| 0 <= k < i ==> s[k] != x,
    ensures
        first_index(s, x) == i,
    decreases i,
{
    if i > 0 {
        assert(s[0] != x);
        let t = s.drop_first();
        assert forall|k: int| 0 <= k < i - 1 implies t[k] != x by {
            assert(t[k] == s[k + 1]);
        }
        lemma_first_index(t, x, i - 1);
    }
}

/// Index of the first `p` in `v`, if any.
fn find_path(v: &Vec<String>, p: &String) -> (r: Option<usize>)
    ensures
        match r {
            Some(i) => {
                &&& tags_view(v@).contains(p@)
                &&& i == first_index(tags_view(v@), p@)
                &&& i < v@.len()
                &&& v@[i as int]@ == p@
                &&& forall|k: int| 0 <= k < i ==> v@[k]@ != p@
            },
            None => !tags_view(v@).contains(p@),
        },
{
    let mut i: usize = 0;
    while i < v.len()
        invariant
            i <= v@.len(),
            forall|k: int| 0 <= k < i ==> v@[k]@ != p@,
        decreases v@.len() - i,
    {
        if v[i] == *p {
            let ghost s = tags_view(v@);
            assert(s[i as int] == p@);
            assert(forall|k: int| 0 <= k < i ==> s[k] != p@);
            proof {
                lemma_first_index(s, p@, i as int);
            }
            return Some(i);
        }
        i += 1;
    }
    proof {
        if tags_view(v@).contains(p@) {
            let k = choose|k: int| 0 <= k < tags_view(v@).len() && tags_view(v@)[k] == p@;
            assert(v@[k]@ == p@);
        }
    }
    None
}

/// Index of the first `p` in `v`, or 0 where there is none.
fn position_or_first(v: &Vec<String>, p: &String) -> (r: usize)
    ensures
        if tags_view(v@).contains(p@) {
            &&& r < v@.len()
            &&& v@[r as int]@ == p@
            &&& forall|k: int| 0 <= k < r ==> v@[k]@ != p@
        } else {
            r == 0
        },
{
    match find_path(v, p) {
        Some(i) => i,
        None => 0,
    }
}

/// Images of one directory in order, and which of them is current.
pub struct ImageViewer {
    pub current_image: Option<String>,
    pub images_in_dir: Vec<String>,
    pub current_index: usize,
    pub texture_uri: Option<String>,
}

/// `w` is `v` after opening `path` with `siblings` listed beside it: where
/// it names an image on disk, that image is shown, the list holds the
/// viewable siblings sorted, and the index is that of `path`, else 0.
pub open spec fn opened(v: ImageViewer, w: ImageViewer, path: Seq<char>, on_disk: bool, siblings: Seq<String>) -> bool {
    if on_disk && is_viewable_path(path) {
        &&& opt_view(w.current_image) == Some(path)
        &&& w.uri() == Some(uri_of(path))
        &&& w.images_in_dir@.to_multiset() == viewable_only(siblings).to_multiset()
        &&& sorted_paths(w.images_in_dir@)
        &&& if w.images().contains(path) {
            &&& w.images()[w.current_index as int] == path
            &&& forall|k: int| 0 <= k < w.current_index ==> w.images()[k] != path
        } else {
            w.current_index == 0
        }
    } else {
        w == v
    }
}

/// `w` is `v` after taking out its current image, and `r` is what became
/// current: the image that took its place, else the one before; nothing
/// where no image is left or the current one was not listed.
pub open spec fn removed_current(v: ImageViewer, w: ImageViewer, r: Option<String>) -> bool {
    match v.current_image {
        Some(c) if v.images().contains(c@) => {
            let pos = first_index(v.images(), c@);
            let rest = v.images_in_dir@.remove(pos);
            &&& w.images_in_dir@ == rest
            &&& if rest.len() == 0 {
                &&& r is None
                &&& w.current_image is None
                &&& w.uri() is None
                &&& w.current_index == 0
            } else {
                let i = if pos < rest.len() { pos } else { pos - 1 };
                &&& w.shows(i)
                &&& opt_view(r) == Some(rest[i]@)
            }
        },
        _ => {
            &&& r is None
            &&& w.current_image is None
            &&& w.uri() is None
            &&& w.current_index == 0
            &&& w.images_in_dir == v.images_in_dir
        },
    }
}

/// Two viewers with the same list that show the same position show the
/// same image: so a viewer that returns to its position after `n` moves
/// (`lemma_navigation_wraps`) shows again the image it showed.
pub proof fn lemma_same_position_same_image(a: ImageViewer, b: ImageViewer, i: int)
    requires
        a.shows(i),
        b.shows(i),
        a.images_in_dir == b.images_in_dir,
    ensures
        a.current_index == b.current_index,
        opt_view(a.current_image) == opt_view(b.current_image),
        a.uri() == b.uri(),
{
}

impl Default for ImageViewer {
    fn default() -> (r: ImageViewer)
        ensures
            r.current_image is None,
            r.images_in_dir@.len() == 0,
            r.current_index == 0,
            r.texture_uri is None,
    {
        ImageViewer { current_image: None, images_in_dir: Vec::new(), current_index: 0, texture_uri: None }
    }
}

impl ImageViewer {
    /// Where there are images, the index points at one.
    pub open spec fn wf(&self) -> bool {
        self.images_in_dir@.len() > 0 ==> self.current_index < self.images_in_dir@.len()
    }

    pub open spec fn images(&self) -> Seq<Seq<char>> {
        tags_view(self.images_in_dir@)
    }

    pub open spec fn uri(&self) -> Option<Seq<char>> {
        opt_view(self.texture_uri)
    }

    /// The viewer shows the image at `i` of its list.
    pub open spec fn shows(&self, i: int) -> bool {
        &&& self.current_index == i
        &&& opt_view(self.current_image) == Some(self.images()[i])
        &&& self.uri() == Some(uri_of(self.images()[i]))
    }

    /// Shows nothing; the list of images stays.
    pub fn close(&mut self)
        ensures
            final(self).current_image is None,
            final(self).uri() is None,
            final(self).current_index == 0,
            final(self).images_in_dir == old(self).images_in_dir,
    {
        self.current_image = None;
        self.texture_uri = None;
        self.current_index = 0;
    }

    fn show_at(&mut self, i: usize)
        requires
            i < old(self).images_in_dir@.len(),
        ensures
            final(self).shows(i as int),
            final(self).images_in_dir == old(self).images_in_dir,
    {
        self.current_index = i;
        let path = self.images_in_dir[i].clone();
        self.texture_uri = Some(path_to_uri(path.as_str()));
        self.current_image = Some(path);
    }

    /// Opens `path`, a canonical path that `on_disk`, where it names an image.
    /// The list becomes the images among `siblings`, the entries of its
    /// directory, sorted; the index is that of `path` in it, else 0.
    pub fn open(&mut self, path: &str, on_disk: bool, siblings: Vec<String>)
        requires
            old(self).wf(),
        ensures
            final(self).wf(),
            opened(*old(self), *final(self), path@, on_disk, siblings@),
    {
        if !on_disk || !is_image_file(path) {
            return;
        }
        let p = String::from_str(path);
        self.texture_uri = Some(path_to_uri(path));
        self.current_image = Some(p.clone());
        self.load_directory_images(siblings);
        self.current_index = position_or_first(&self.images_in_dir, &p);
    }

    /// Takes the images among `entries`, the listing of a directory, sorted,
    /// with none of them current.
    pub fn set_directory(&mut self, entries: Vec<String>)
        ensures
            final(self).wf(),
            final(self).images_in_dir@.to_multiset() == viewable_only(entries@).to_multiset(),
            sorted_paths(final(self).images_in_dir@),
            final(self).current_image is None,
            final(self).uri() is None,
            final(self).current_index == 0,
    {
        self.load_directory_images(entries);
        self.close();
    }

    fn load_directory_images(&mut self, entries: Vec<String>)
        ensures
            final(self).images_in_dir@.to_multiset() == viewable_only(entries@).to_multiset(),
            sorted_paths(final(self).images_in_dir@),
            final(self).current_image == old(self).current_image,
            final(self).current_index == old(self).current_index,
            final(self).uri() == old(self).uri(),
    {
        let mut kept: Vec<String> = Vec::new();
        let mut i: usize = 0;
        while i < entries.len()
            invariant
                i <= entries@.len(),
                kept@ == viewable_only(entries@.subrange(0, i as int)),
            decreases entries@.len() - i,
        {
            assert(entries@.subrange(0, i as int + 1).drop_last() =~= entries@.subrange(0, i as int));
            if is_image_file(entries[i].as_str()) {
                kept.push(entries[i].clone());
            }
            i += 1;
        }
        assert(entries@.subrange(0, entries@.len() as int) =~= entries@);
        sort_paths(&mut kept);
        self.images_in_dir = kept;
    }

    /// Takes the current image out of the list, after its file has gone.
    /// Shows the image that took its place, else the one before it, and
    /// returns it; where none is left, or the current image is not in the
    /// list, shows nothing and returns nothing.
    pub fn remove_current_and_advance(&mut self) -> (r: Option<String>)
        requires
            old(self).wf(),
        ensures
            final(self).wf(),
            removed_current(*old(self), *final(self), r),
    {
        let pos = match &self.current_image {
            Some(c) => find_path(&self.images_in_dir, c),
            None => None,
        };
        match pos {
            None => {
                self.close();
                None
            },
            Some(pos) => {
                self.images_in_dir.remove(pos);
                if self.images_in_dir.len() == 0 {
                    self.close();
                    None
                } else {
                    let i = if pos < self.images_in_dir.len() {
                        pos
                    } else {
                        pos - 1
                    };
                    self.show_at(i);
                    Some(self.images_in_dir[i].clone())
                }
            },
        }
    }

    /// Moves to the previous image, from the first to the last.
    pub fn prev(&mut self)
        requires
            old(self).wf(),
        ensures
            final(self).wf(),
            final(self).images_in_dir == old(self).images_in_dir,
            old(self).images_in_dir@.len() == 0 ==> *final(self) == *old(self),
            old(self).images_in_dir@.len() > 0 ==> final(self).shows(
                prev_index(old(self).current_index as int, old(self).images_in_dir@.len() as int),
            ),
    {
        if self.images_in_dir.len() == 0 {
            return;
        }
        let i = if self.current_index > 0 {
            self.current_index - 1
        } else {
            self.images_in_dir.len() - 1
        };
        self.show_at(i);
    }

    /// Moves to the next image, from the last to the first.
    pub fn next(&mut self)
        requires
            old(self).wf(),
        ensures
            final(self).wf(),
            final(self).images_in_dir == old(self).images_in_dir,
            old(self).images_in_dir@.len() == 0 ==> *final(self) == *old(self),
            old(self).images_in_dir@.len() > 0 ==> final(self).shows(
                next_index(old(self).current_index as int, old(self).images_in_dir@.len() as int),
            ),
    {
        if self.images_in_dir.len() == 0 {
            return;
        }
        let i = (self.current_index + 1) % self.images_in_dir.len();
        self.show_at(i);
    }

    /// Moves to the image at `index`, where there is one.
    pub fn goto(&mut self, index: usize)
        requires
            old(self).wf(),
        ensures
            final(self).wf(),
            final(self).images_in_dir == old(self).images_in_dir,
            index >= old(self).images_in_dir@.len() ==> *final(self) == *old(self),
            index < old(self).images_in_dir@.len() ==> final(self).shows(index as int),
    {
        if index < self.images_in_dir.len() {
            self.show_at(index);
        }
    }

    /// The URI of the image shown, if any.
    pub fn get_texture_uri(&self) -> (r: Option<&str>)
        ensures
            match r {
                Some(s) => self.uri() == Some(s@),
                None => self.uri() is None,
            },
    {
        match &self.texture_uri {
            Some(u) => Some(u.as_str()),
            None => None,
        }
    }

    /// How many images the directory holds.
    pub fn total_images(&self) -> (r: usize)
        ensures
            r == self.images_in_dir@.len(),
    {
        self.images_in_dir.len()
    }
}

} // verus!
