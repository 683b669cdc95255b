use vstd::prelude::*;
use vstd::utf8::encode_utf8;
use crate::format::{file_name, file_name_chars, is_image_file, is_viewable_path};
use crate::tags::{contains_tag, distinct_tags, tags_view};
use crate::text::{chars_of, lower_of, lowercase, string_of};
use crate::viewer::bytes_le;

verus! {

broadcast use {vstd::seq_lib::group_to_multiset_ensures, vstd::multiset::group_multiset_properties};

/// `c` are the children that `entries` give: the directories, then the
/// image files, each group ordered by key.
pub open spec fn children_from(c: Seq<FileNode>, entries: Seq<FileNode>) -> bool {
    let d = dirs_of(entries);
    &&& c.len() == d.len() + images_of(entries).len()
    &&& c.subrange(0, d.len() as int).to_multiset() == d.to_multiset()
    &&& c.subrange(d.len() as int, c.len() as int).to_multiset() == images_of(entries).to_multiset()
    &&& key_sorted(c.subrange(0, d.len() as int))
    &&& key_sorted(c.subrange(d.len() as int, c.len() as int))
}

/// `t` is the path `p` or lies below it, component by component.
pub open spec fn within(t: Seq<char>, p: Seq<char>) -> bool {
    t == p || (p.len() < t.len() && t.subrange(0, p.len() as int) == p && (t[p.len() as int] == '/'
        || (p.len() > 0 && p.last() == '/')))
}

/// Whether `t` is the path `p` or lies below it.
pub fn path_within(t: &str, p: &str) -> (r: bool)
    ensures
        r == within(t@, p@),
{
    let tc = chars_of(t);
    let pc = chars_of(p);
    if pc.len() > tc.len() {
        assert(tc@.len() != pc@.len());
        return false;
    }
    let mut i: usize = 0;
    while i < pc.len()
        invariant
            tc@ == t@,
            pc@ == p@,
            pc@.len() <= tc@.len(),
            i <= pc@.len(),
            forall|k: int| 0 <= k < i ==> tc@[k] == pc@[k],
        decreases pc@.len() - i,
    {
        if tc[i] != pc[i] {
            proof {
                let sub = tc@.subrange(0, pc@.len() as int);
                assert(sub[i as int] == tc@[i as int]);
                assert(sub != pc@);
                assert(tc@[i as int] != pc@[i as int]);
                assert(tc@ != pc@);

            }
            return false;
        }
        i += 1;
    }
    assert(tc@.subrange(0, pc@.len() as int) =~= pc@);
    if pc.len() == tc.len() {
        assert(tc@ =~= pc@);
        true
    } else {
        tc[pc.len()] == '/' || (pc.len() > 0 && pc[pc.len() - 1] == '/')
    }
}

/// An entry of the directory tree: a directory or an image file.
pub struct FileNode {
    pub path: String,
    pub name: String,
    pub is_dir: bool,
    pub children: Vec<FileNode>,
}

/// The key that orders entries: the bytes of the lower-cased name.
pub open spec fn fold_key(n: FileNode) -> Seq<u8> {
    encode_utf8(lower_of(n.name@))
}

/// Entries in the order of their keys.
pub open spec fn key_sorted(s: Seq<FileNode>) -> bool {
    forall|i: int, j: int| 0 <= i < j < s.len() ==> bytes_le(fold_key(s[i]), fold_key(s[j]))
}

/// The directories among `s`, in order.
pub open spec fn dirs_of(s: Seq<FileNode>) -> Seq<FileNode>
    decreases s.len(),
{
    if s.len() == 0 {
        s
    } else if s.last().is_dir {
        dirs_of(s.drop_last()).push(s.last())
    } else {
        dirs_of(s.drop_last())
    }
}

/// The image files among `s` that are no directories, in order.
pub open spec fn images_of(s: Seq<FileNode>) -> Seq<FileNode>
    decreases s.len(),
{
    if s.len() == 0 {
        s
    } else if !s.last().is_dir && is_viewable_path(s.last().path@) {
        images_of(s.drop_last()).push(s.last())
    } else {
        images_of(s.drop_last())
    }
}

proof fn lemma_bytes_le_total(a: Seq<u8>, b: Seq<u8>)
    ensures
        bytes_le(a, b) || bytes_le(b, a),
    decreases a.len(),
{
    if a.len() > 0 && b.len() > 0 && a[0] == b[0] {
        lemma_bytes_le_total(a.drop_first(), b.drop_first());
    }
}

proof fn lemma_bytes_le_trans(a: Seq<u8>, b: Seq<u8>, c: Seq<u8>)
    requires
        bytes_le(a, b),
        bytes_le(b, c),
    ensures
        bytes_le(a, c),
    decreases a.len(),
{
    if a.len() > 0 && b.len() > 0 && c.len() > 0 && a[0] == b[0] && b[0] == c[0] {
        lemma_bytes_le_trans(a.drop_first(), b.drop_first(), c.drop_first());
    }
}

fn bytes_le_exec(a: &Vec<u8>, b: &Vec<u8>) -> (r: bool)
    ensures
        r == bytes_le(a@, b@),
{
    let mut i: usize = 0;
    assert(a@.subrange(0, a@.len() as int) =~= a@);
    assert(b@.subrange(0, b@.len() as int) =~= b@);
    while i < a.len() && i < b.len() && a[i] == b[i]
        invariant
            i <= a@.len(),
            i <= b@.len(),
            bytes_le(a@, b@) == bytes_le(a@.subrange(i as int, a@.len() as int), b@.subrange(i as int, b@.len() as int)),
        decreases a@.len() - i,
    {
        let ghost sa = a@.subrange(i as int, a@.len() as int);
        let ghost sb = b@.subrange(i as int, b@.len() as int);
        assert(sa.drop_first() =~= a@.subrange(i as int + 1, a@.len() as int));
        assert(sb.drop_first() =~= b@.subrange(i as int + 1, b@.len() as int));
        i += 1;
    }
    if i == a.len() {
        true
    } else if i == b.len() {
        false
    } else {
        a[i] < b[i]
    }
}

/// The key of `n`, computed.
fn key_of(n: &FileNode) -> (r: Vec<u8>)
    ensures
        r@ == fold_key(*n),
{
    let l = lowercase(n.name.as_str());
    l.as_str().as_bytes_vec()
}

/// `v` reordered by key; entries with equal keys keep their order.
fn sort_by_folded_name(v: Vec<FileNode>) -> (r: Vec<FileNode>)
    ensures
        r@.to_multiset() == v@.to_multiset(),
        key_sorted(r@),
{
    let mut out: Vec<FileNode> = Vec::new();
    let mut keys: Vec<Vec<u8>> = Vec::new();
    let mut rest = v;
    let ghost orig = rest@;
    while rest.len() > 0
        invariant
            out@.len() == keys@.len(),
            forall|k: int| 0 <= k < keys@.len() ==> keys@[k]@ == fold_key(out@[k]),
            key_sorted(out@),
            out@.to_multiset().add(rest@.to_multiset()) == orig.to_multiset(),
        decreases rest@.len(),
    {
        let x = rest.remove(0);
        let kx = key_of(&x);
        let mut p: usize = 0;
        while p < out.len() && bytes_le_exec(&keys[p], &kx)
            invariant
                out@.len() == keys@.len(),
                p <= out@.len(),
                forall|k: int| 0 <= k < keys@.len() ==> keys@[k]@ == fold_key(out@[k]),
                forall|k: int| 0 <= k < p ==> bytes_le(fold_key(out@[k]), kx@),
            decreases out@.len() - p,
        {
            p += 1;
        }
        let ghost before = out@;
        proof {
            assert forall|j: int| p <= j < before.len() implies bytes_le(kx@, fold_key(before[j])) by {
                lemma_bytes_le_total(fold_key(before[p as int]), kx@);
                if j > p {
                    lemma_bytes_le_trans(kx@, fold_key(before[p as int]), fold_key(before[j]));
                }
            }
            vstd::seq_lib::to_multiset_insert(before, p as int, x);
        }
        out.insert(p, x);
        keys.insert(p, kx);
        proof {
            assert forall|i: int, j: int| 0 <= i < j < out@.len() implies bytes_le(fold_key(out@[i]), fold_key(out@[j])) by {
                if j < p {
                    assert(out@[i] == before[i] && out@[j] == before[j]);
                } else if j == p {
                    assert(out@[i] == before[i]);
                } else if i == p {
                    assert(out@[j] == before[j - 1]);
                } else if i < p {
                    assert(out@[i] == before[i] && out@[j] == before[j - 1]);
                    lemma_bytes_le_trans(fold_key(before[i]), kx@, fold_key(before[j - 1]));
                } else {
                    assert(out@[i] == before[i - 1] && out@[j] == before[j - 1]);
                }
            }
            assert forall|k: int| 0 <= k < keys@.len() implies keys@[k]@ == fold_key(out@[k]) by {
                if k < p {
                } else if k == p {
                } else {
                    assert(out@[k] == before[k - 1]);
                }
            }
        }
    }
    out
}

impl FileNode {
    /// A node for `path`, named by its last component, with no children yet.
    pub fn new(path: String, is_dir: bool) -> (r: FileNode)
        ensures
            r.path == path,
            r.name@ == file_name(path@),
            r.is_dir == is_dir,
            r.children@.len() == 0,
    {
        let p = chars_of(path.as_str());
        let name = string_of(file_name_chars(&p).as_slice());
        FileNode { path, name, is_dir, children: Vec::new() }
    }

    /// Takes the entries read from this directory as its children:
    /// directories first, then image files, each group by lower-cased name.
    /// A node that is no directory keeps no children.
    pub fn set_children(&mut self, entries: Vec<FileNode>)
        ensures
            final(self).path == old(self).path,
            final(self).name == old(self).name,
            final(self).is_dir == old(self).is_dir,
            !old(self).is_dir ==> final(self).children == old(self).children,
            old(self).is_dir ==> children_from(final(self).children@, entries@),
    {
        if !self.is_dir {
            return;
        }
        let mut dirs: Vec<FileNode> = Vec::new();
        let mut files: Vec<FileNode> = Vec::new();
        let mut rest = entries;
        let ghost all = rest@;
        let total = rest.len();
        let mut i: usize = 0;
        while rest.len() > 0
            invariant
                all.len() == total,
                i + rest@.len() == all.len(),
                rest@ == all.subrange(i as int, all.len() as int),
                dirs@ == dirs_of(all.subrange(0, i as int)),
                files@ == images_of(all.subrange(0, i as int)),
            decreases rest@.len(),
        {
            let n = rest.remove(0);
            assert(all.subrange(0, i as int + 1).drop_last() =~= all.subrange(0, i as int));
            assert(all.subrange(i as int + 1, all.len() as int) =~= rest@);
            if n.is_dir {
                dirs.push(n);
            } else if is_image_file(n.path.as_str()) {
                files.push(n);
            }
            i += 1;
        }
        assert(all.subrange(0, all.len() as int) =~= all);
        let mut sorted = sort_by_folded_name(dirs);
        let mut sorted_files = sort_by_folded_name(files);
        let ghost d = sorted@;
        let ghost f = sorted_files@;
        sorted.append(&mut sorted_files);
        proof {
            assert(sorted@.subrange(0, d.len() as int) =~= d);
            assert(sorted@.subrange(d.len() as int, sorted@.len() as int) =~= f);
            vstd::seq_lib::to_multiset_len(d);
            vstd::seq_lib::to_multiset_len(dirs_of(all));
            vstd::seq_lib::to_multiset_len(f);
            vstd::seq_lib::to_multiset_len(images_of(all));
        }
        self.children = sorted;
    }
}

/// The tree of directories shown beside the image, and which are open.
pub struct FileTree {
    pub root: Option<FileNode>,
    pub expanded: Vec<String>,
}

impl Default for FileTree {
    fn default() -> (r: FileTree)
        ensures
            r.root is None,
            r.expanded@.len() == 0,
    {
        FileTree { root: None, expanded: Vec::new() }
    }
}

impl FileTree {
    /// The open directories, each listed once.
    pub open spec fn wf(&self) -> bool {
        distinct_tags(tags_view(self.expanded@))
    }

    /// Whether `path` is open.
    pub fn is_expanded(&self, path: &str) -> (r: bool)
        ensures
            r == tags_view(self.expanded@).contains(path@),
    {
        let p = String::from_str(path);
        contains_tag(&self.expanded, &p)
    }

    fn expand(&mut self, path: &str)
        requires
            old(self).wf(),
        ensures
            final(self).wf(),
            final(self).root == old(self).root,
            forall|x: Seq<char>| tags_view(final(self).expanded@).contains(x) <==> (tags_view(old(self).expanded@).contains(x) || x == path@),
    {
        let p = String::from_str(path);
        if !contains_tag(&self.expanded, &p) {
            let ghost before = tags_view(self.expanded@);
            self.expanded.push(p);
            proof {
                let after = tags_view(self.expanded@);
                assert(after =~= before.push(path@));
                assert forall|x: Seq<char>| after.contains(x) <==> (before.contains(x) || x == path@) by {
                    if after.contains(x) {
                        let k = choose|k: int| 0 <= k < after.len() && after[k] == x;
                        if k < before.len() {
                            assert(before[k] == x);
                        }
                    }
                    if before.contains(x) {
                        let k = choose|k: int| 0 <= k < before.len() && before[k] == x;
                        assert(after[k] == x);
                    }
                    if x == path@ {
                        assert(after[before.len() as int] == x);
                    }
                }
            }
        }
    }

    /// Makes the directory `dir` the root, with `entries` read from it as
    /// its children, and opens it.
    pub fn set_root(&mut self, dir: String, entries: Vec<FileNode>)
        requires
            old(self).wf(),
        ensures
            final(self).wf(),
            final(self).root is Some,
            final(self).root->0.path == dir,
            final(self).root->0.is_dir,
            tags_view(final(self).expanded@).contains(dir@),
    {
        let mut root = FileNode::new(dir, true);
        root.set_children(entries);
        self.expand(root.path.as_str());
        self.root = Some(root);
    }

    /// Closes `path` where it is open, else opens it; returns whether it was
    /// opened, in which case its children are to be read.
    pub fn toggle_expanded(&mut self, path: &str) -> (opened: bool)
        requires
            old(self).wf(),
        ensures
            final(self).wf(),
            final(self).root == old(self).root,
            opened == !tags_view(old(self).expanded@).contains(path@),
            forall|x: Seq<char>|
                tags_view(final(self).expanded@).contains(x) <==> if x == path@ {
                    opened
                } else {
                    tags_view(old(self).expanded@).contains(x)
                },
    {
        if self.is_expanded(path) {
            let ghost before = tags_view(self.expanded@);
            crate::tags::remove_tag(&mut self.expanded, path);
            proof {
                assert forall|x: Seq<char>| tags_view(self.expanded@).contains(x) <==> (before.contains(x) && x != path@) by {
                    crate::tags::lemma_without_tag_contains(before, path@, x);
                }
                crate::tags::lemma_without_keeps_distinct(before, path@);
            }
            false
        } else {
            self.expand(path);
            true
        }
    }

    /// Gives the node for `target` at or below `node` the entries read from
    /// it as children, where `entries` still holds them, and takes them; walks
    /// down only into children that `target` lies within.
    pub fn load_children_recursive(node: &mut FileNode, target: &str, entries: &mut Option<Vec<FileNode>>)
        ensures
            final(node).path == old(node).path,
            final(node).name == old(node).name,
            final(node).is_dir == old(node).is_dir,
            old(node).path@ == target@ ==> {
                &&& *final(entries) is None
                &&& (*old(entries) is Some && old(node).is_dir) ==> children_from(final(node).children@, (*old(entries))->0@)
                &&& (*old(entries) is None || !old(node).is_dir) ==> final(node).children == old(node).children
            },
            old(node).path@ != target@ ==> {
                &&& final(node).children@.len() == old(node).children@.len()
                &&& forall|k: int| 0 <= k < old(node).children@.len() && !within(target@, old(node).children@[k].path@)
                    ==> final(node).children@[k] == old(node).children@[k]
            },
        decreases *old(node),
    {
        let p = String::from_str(target);
        if node.path == p {
            match entries.take() {
                Some(e) => node.set_children(e),
                None => {},
            }
            return;
        }
        let ghost before = node.children@;
        let mut i: usize = 0;
        while i < node.children.len()
            invariant
                node.path == old(node).path,
                node.name == old(node).name,
                node.is_dir == old(node).is_dir,
                before == old(node).children@,
                node.children@.len() == before.len(),
                i <= before.len(),
                forall|k: int| i <= k < before.len() ==> node.children@[k] == before[k],
                forall|k: int| 0 <= k < i && !within(target@, before[k].path@) ==> node.children@[k] == before[k],
            decreases before.len() - i,
        {
            if path_within(target, node.children[i].path.as_str()) {
                let mut child = node.children.remove(i);
                assert(child == before[i as int]);
                assert(decreases_to!(*old(node) => old(node).children));
                assert(decreases_to!(old(node).children => old(node).children@));
                assert(decreases_to!(old(node).children@ => before[i as int]));
                FileTree::load_children_recursive(&mut child, target, entries);
                node.children.insert(i, child);
            }
            i += 1;
        }
    }

    /// Gives the directory `target` in the tree the entries read from it as
    /// children.
    pub fn load_children_for_path(&mut self, target: &str, entries: Vec<FileNode>)
        ensures
            final(self).expanded == old(self).expanded,
            old(self).root is None ==> final(self).root is None,
            old(self).root is Some ==> final(self).root is Some && final(self).root->0.path == old(self).root->0.path,
            old(self).root is Some && old(self).root->0.path@ == target@ && old(self).root->0.is_dir
                ==> children_from(final(self).root->0.children@, entries@),
    {
        let mut e = Some(entries);
        match self.root.take() {
            Some(mut root) => {
                FileTree::load_children_recursive(&mut root, target, &mut e);
                self.root = Some(root);
            },
            None => {},
        }
    }
}

} // verus!
