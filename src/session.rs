use vstd::prelude::*;
use vstd::utf8::encode_utf8;
use crate::codec::{join, load_tags, lossy_text, save_tags, tags_of_text, TagError};
use crate::format::is_taggable_path;
use crate::slideshow::opt_view;
use crate::tags::{
    add_tag, lemma_without_len, remove_tag, tags_view, toggle_tag, toggled, with_tag, without_tag,
};
use crate::hotkeys::{tags_for_key, HotkeyTable};
use crate::viewer::{next_index, opened, prev_index, removed_current, ImageViewer};

verus! {

/// The tags that an image holds, given what was read from its comment field.
pub open spec fn loaded_tags(path: Seq<char>, comment: Option<Vec<u8>>) -> Seq<Seq<char>> {
    if is_taggable_path(path) {
        match comment {
            Some(b) => tags_of_text(lossy_text(b@)),
            None => Seq::empty(),
        }
    } else {
        Seq::empty()
    }
}

/// `ts` after toggling each of `tags` in turn.
pub open spec fn toggled_all(ts: Seq<Seq<char>>, tags: Seq<Seq<char>>) -> Seq<Seq<char>>
    decreases tags.len(),
{
    if tags.len() == 0 {
        ts
    } else {
        toggled(toggled_all(ts, tags.drop_last()), tags.last()).0
    }
}

/// Some toggle among `tags`, applied in turn to `ts`, changed the list.
pub open spec fn some_toggle_changes(ts: Seq<Seq<char>>, tags: Seq<Seq<char>>) -> bool
    decreases tags.len(),
{
    if tags.len() == 0 {
        false
    } else {
        let before = toggled_all(ts, tags.drop_last());
        some_toggle_changes(ts, tags.drop_last()) || toggled(before, tags.last()).0 != before
    }
}

/// The image being shown and its tags, with whether they changed since they
/// were last read or written.
pub struct TagSession {
    pub viewer: ImageViewer,
    pub tags: Vec<String>,
    pub modified: bool,
}

impl TagSession {
    pub open spec fn wf(&self) -> bool {
        self.viewer.wf()
    }

    pub open spec fn tag_list(&self) -> Seq<Seq<char>> {
        tags_view(self.tags@)
    }

    pub fn new() -> (r: TagSession)
        ensures
            r.wf(),
            r.viewer.current_image is None,
            r.tag_list().len() == 0,
            !r.modified,
    {
        TagSession { viewer: ImageViewer::default(), tags: Vec::new(), modified: false }
    }

    /// Opens `path` as the viewer does and takes the tags read from it,
    /// unchanged so far.
    pub fn open(&mut self, path: &str, on_disk: bool, siblings: Vec<String>, comment: Option<Vec<u8>>)
        requires
            old(self).wf(),
        ensures
            final(self).wf(),
            final(self).tag_list() == loaded_tags(path@, comment),
            !final(self).modified,
            opened(old(self).viewer, final(self).viewer, path@, on_disk, siblings@),
    {
        self.viewer.open(path, on_disk, siblings);
        self.take_loaded(path, comment);
    }

    /// Takes the tags read from `path`, the image now shown, unchanged so far.
    pub fn take_loaded(&mut self, path: &str, comment: Option<Vec<u8>>)
        ensures
            final(self).viewer == old(self).viewer,
            final(self).tag_list() == loaded_tags(path@, comment),
            !final(self).modified,
    {
        let t = load_tags(path, comment);
        proof {
            if t@.len() == 0 {
                assert(tags_view(t@) =~= Seq::<Seq<char>>::empty());
            }
        }
        self.tags = t;
        self.modified = false;
    }

    /// Whether the tags are to be written before moving on.
    pub fn needs_save(&self, auto_save: bool) -> (r: bool)
        ensures
            r == (auto_save && self.modified && self.viewer.current_image is Some),
    {
        auto_save && self.modified && self.viewer.current_image.is_some()
    }

    /// What to write into the current image for its tags; nothing where no
    /// image is shown.
    pub fn pending_save(&self) -> (r: Option<Result<Vec<u8>, TagError>>)
        ensures
            match self.viewer.current_image {
                None => r is None,
                Some(p) => match r {
                    Some(Ok(b)) => is_taggable_path(p@) && b@ == encode_utf8(join(self.tag_list())),
                    Some(Err(e)) => !is_taggable_path(p@) && e is UnsupportedFormat,
                    None => false,
                },
            },
    {
        match &self.viewer.current_image {
            Some(p) => Some(save_tags(p.as_str(), &self.tags)),
            None => None,
        }
    }

    /// Records how writing the tags went: only success makes them unchanged.
    pub fn finish_save(&mut self, written: bool)
        ensures
            final(self).viewer == old(self).viewer,
            final(self).tags == old(self).tags,
            final(self).modified == (old(self).modified && !written),
    {
        if written {
            self.modified = false;
        }
    }

    /// Moves to the next (or previous) image and returns the path whose tags
    /// are to be read next.
    pub fn navigate(&mut self, forward: bool) -> (r: Option<String>)
        requires
            old(self).wf(),
        ensures
            final(self).wf(),
            final(self).tags == old(self).tags,
            final(self).modified == old(self).modified,
            r == final(self).viewer.current_image,
            final(self).viewer.images_in_dir == old(self).viewer.images_in_dir,
            ({
                let n = old(self).viewer.images_in_dir@.len() as int;
                let i = old(self).viewer.current_index as int;
                if n == 0 {
                    final(self).viewer == old(self).viewer
                } else if forward {
                    final(self).viewer.shows(next_index(i, n))
                } else {
                    final(self).viewer.shows(prev_index(i, n))
                }
            }),
    {
        if forward {
            self.viewer.next();
        } else {
            self.viewer.prev();
        }
        self.viewer.current_image.clone()
    }

    /// Adds a tag; marks the tags changed only if the list changed.
    pub fn add(&mut self, tag: &str)
        ensures
            final(self).viewer == old(self).viewer,
            final(self).tag_list() == with_tag(old(self).tag_list(), tag@),
            final(self).modified == (old(self).modified || final(self).tag_list() != old(self).tag_list()),
    {
        let before = self.tags.len();
        add_tag(&mut self.tags, tag);
        assert(self.tag_list().len() == self.tags@.len());
        assert(old(self).tag_list().len() == before);
        if self.tags.len() != before {
            self.modified = true;
        }
    }

    /// Removes a tag; marks the tags changed only if the list changed.
    pub fn remove(&mut self, tag: &str)
        ensures
            final(self).viewer == old(self).viewer,
            final(self).tag_list() == without_tag(old(self).tag_list(), tag@),
            final(self).modified == (old(self).modified || final(self).tag_list() != old(self).tag_list()),
    {
        let before = self.tags.len();
        proof {
            lemma_without_len(self.tag_list(), tag@);
        }
        remove_tag(&mut self.tags, tag);
        assert(self.tag_list().len() == self.tags@.len());
        assert(old(self).tag_list().len() == before);
        if self.tags.len() != before {
            self.modified = true;
        }
    }

    /// Toggles a tag and returns whether it was added; marks the tags
    /// changed only if the list changed.
    pub fn toggle(&mut self, tag: &str) -> (added: bool)
        ensures
            final(self).viewer == old(self).viewer,
            (final(self).tag_list(), added) == toggled(old(self).tag_list(), tag@),
            final(self).modified == (old(self).modified || final(self).tag_list() != old(self).tag_list()),
    {
        let before = self.tags.len();
        proof {
            lemma_without_len(self.tag_list(), crate::text::trim(tag@));
        }
        let added = toggle_tag(&mut self.tags, tag);
        assert(self.tag_list().len() == self.tags@.len());
        assert(old(self).tag_list().len() == before);
        if self.tags.len() != before {
            self.modified = true;
        }
        added
    }

    /// Toggles every tag bound to `key`, in the table's order, and returns
    /// whether the tags are now to be written.
    pub fn press_key(&mut self, table: &HotkeyTable, key: char, auto_save: bool) -> (save_due: bool)
        requires
            table.wf(),
        ensures
            final(self).viewer == old(self).viewer,
            final(self).tag_list() == toggled_all(old(self).tag_list(), tags_for_key(table@, key)),
            final(self).modified == (old(self).modified || some_toggle_changes(
                old(self).tag_list(),
                tags_for_key(table@, key),
            )),
            save_due == (auto_save && final(self).modified && final(self).viewer.current_image is Some),
    {
        let tags = table.tags_for(key);
        let ghost start = self.tag_list();
        let ghost all = tags_view(tags@);
        let mut i: usize = 0;
        while i < tags.len()
            invariant
                i <= tags@.len(),
                all == tags_view(tags@),
                self.viewer == old(self).viewer,
                start == old(self).tag_list(),
                self.tag_list() == toggled_all(start, all.subrange(0, i as int)),
                self.modified == (old(self).modified || some_toggle_changes(start, all.subrange(0, i as int))),
            decreases tags@.len() - i,
        {
            assert(all.subrange(0, i as int + 1).drop_last() =~= all.subrange(0, i as int));
            assert(all.subrange(0, i as int + 1).last() == tags@[i as int]@);
            self.toggle(tags[i].as_str());
            i += 1;
        }
        assert(all.subrange(0, all.len() as int) =~= all);
        self.needs_save(auto_save)
    }

    /// After the current file went to the trash: drops it from the list,
    /// shows the image that follows, and returns it for its tags to be read.
    /// The tags are empty until then.
    pub fn remove_current(&mut self) -> (r: Option<String>)
        requires
            old(self).wf(),
        ensures
            final(self).wf(),
            opt_view(r) == opt_view(final(self).viewer.current_image),
            removed_current(old(self).viewer, final(self).viewer, r),
            final(self).tag_list().len() == 0,
            !final(self).modified,
    {
        let next = self.viewer.remove_current_and_advance();
        self.tags = Vec::new();
        self.modified = false;
        proof {
            assert(next is None ==> self.viewer.current_image is None);
        }
        next
    }
}

} // verus!
