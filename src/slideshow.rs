use vstd::prelude::*;
use crate::tags::tags_view;

verus! {

/// A timed walk over a fixed list of image paths. Times are milliseconds of
/// a monotonic clock that the caller samples.
pub struct Slideshow {
    pub is_running: bool,
    pub images: Vec<String>,
    pub current_index: usize,
    pub last_switch: u64,
    pub completed_once: bool,
}

/// What a slideshow is, leaving out the clock.
pub struct SlideView {
    pub running: bool,
    pub images: Seq<Seq<char>>,
    pub index: int,
    pub completed: bool,
}

/// The state after one advance.
pub open spec fn advanced(v: SlideView, looping: bool) -> SlideView {
    let i = v.index + 1;
    if i >= v.images.len() {
        if looping {
            SlideView { index: 0, completed: true, ..v }
        } else {
            SlideView { index: i, completed: true, running: false, ..v }
        }
    } else {
        SlideView { index: i, ..v }
    }
}

/// The image that one advance hands out, if any.
pub open spec fn shown(v: SlideView, looping: bool) -> Option<Seq<char>> {
    let w = advanced(v, looping);
    if w.running {
        Some(w.images[w.index])
    } else {
        None
    }
}

/// The state after `k` advances.
pub open spec fn advanced_n(v: SlideView, looping: bool, k: nat) -> SlideView
    decreases k,
{
    if k == 0 {
        v
    } else {
        advanced(advanced_n(v, looping, (k - 1) as nat), looping)
    }
}

pub open spec fn opt_view(o: Option<String>) -> Option<Seq<char>> {
    match o {
        Some(s) => Some(s@),
        None => None,
    }
}

/// A looping slideshow keeps running and, after `k` advances, stands `k`
/// images further on, counted round the list; the advance from the last
/// image back to the first is the one that marks a pass completed.
pub proof fn lemma_looping_cycles(v: SlideView, k: nat)
    requires
        v.running,
        0 <= v.index < v.images.len(),
    ensures
        advanced_n(v, true, k).running,
        advanced_n(v, true, k).images == v.images,
        advanced_n(v, true, k).index == (v.index + k) % (v.images.len() as int),
        advanced(v, true).completed == (v.completed || v.index + 1 == v.images.len()),
        shown(v, true) == Some(v.images[(v.index + 1) % (v.images.len() as int)]),
    decreases k,
{
    let n = v.images.len() as int;
    if k > 0 {
        lemma_looping_cycles(v, (k - 1) as nat);
        let w = advanced_n(v, true, (k - 1) as nat);
        assert(w.index == (v.index + k - 1) % n);
        if w.index + 1 >= n {
            assert(w.index == n - 1);
            assert((v.index + k) % n == 0) by {
                vstd::arithmetic::div_mod::lemma_add_mod_noop(v.index + k - 1, 1, n);
                vstd::arithmetic::div_mod::lemma_mod_self_0(n);
                if n > 1 {
                    vstd::arithmetic::div_mod::lemma_small_mod(1, n as nat);
                } else {
                    assert((v.index + k) % 1 == 0);
                }
            }
        } else {
            assert((v.index + k) % n == w.index + 1) by {
                vstd::arithmetic::div_mod::lemma_add_mod_noop(v.index + k - 1, 1, n);
                vstd::arithmetic::div_mod::lemma_small_mod((w.index + 1) as nat, n as nat);
                vstd::arithmetic::div_mod::lemma_small_mod(1, n as nat);
            }
        }
    } else {
        vstd::arithmetic::div_mod::lemma_small_mod(v.index as nat, n as nat);
    }
    if v.index + 1 < n {
        vstd::arithmetic::div_mod::lemma_small_mod((v.index + 1) as nat, n as nat);
    } else {
        vstd::arithmetic::div_mod::lemma_mod_self_0(n);
    }
}

/// Started on `n` images and looping, the `k`-th advance hands out the
/// image `k mod n` and keeps running; it marks a pass completed, on a flag
/// the caller cleared before, exactly when `k` is a multiple of `n`.
pub proof fn lemma_loop_from_start(v: SlideView, k: nat)
    requires
        v.running,
        v.index == 0,
        v.images.len() > 0,
        k >= 1,
    ensures
        ({
            let n = v.images.len() as int;
            let before = advanced_n(v, true, (k - 1) as nat);
            &&& shown(before, true) == Some(v.images[(k as int) % n])
            &&& advanced_n(v, true, k).index == (k as int) % n
            &&& advanced_n(v, true, k).running
            &&& advanced(SlideView { completed: false, ..before }, true).completed == ((k as int) % n == 0)
        }),
{
    let n = v.images.len() as int;
    lemma_looping_cycles(v, (k - 1) as nat);
    lemma_looping_cycles(v, k);
    let before = advanced_n(v, true, (k - 1) as nat);
    assert(before.index == (k - 1) % n);
    lemma_looping_cycles(before, 0);
    vstd::arithmetic::div_mod::lemma_add_mod_noop(k - 1, 1, n);
    vstd::arithmetic::div_mod::lemma_mod_bound(k - 1, n);
    if n > 1 {
        vstd::arithmetic::div_mod::lemma_small_mod(1, n as nat);
    }
    if before.index + 1 < n {
        vstd::arithmetic::div_mod::lemma_small_mod((before.index + 1) as nat, n as nat);
    } else {
        vstd::arithmetic::div_mod::lemma_mod_self_0(n);
    }
}

/// A slideshow that does not loop, started on `n` images, hands out the
/// images after the first one by one, then stops with the pass completed.
pub proof fn lemma_single_pass(v: SlideView, k: nat)
    requires
        v.running,
        v.index == 0,
        !v.completed,
        v.images.len() > 0,
        k < v.images.len(),
    ensures
        advanced_n(v, false, k) == (SlideView { index: k as int, ..v }),
        k + 1 < v.images.len() ==> shown(advanced_n(v, false, k), false) == Some(v.images[k + 1 as int]),
        k + 1 == v.images.len() ==> shown(advanced_n(v, false, k), false) is None,
        k + 1 == v.images.len() ==> !advanced_n(v, false, k + 1).running && advanced_n(
            v,
            false,
            k + 1,
        ).completed,
    decreases k,
{
    if k > 0 {
        lemma_single_pass(v, (k - 1) as nat);
    }
}

impl Default for Slideshow {
    fn default() -> (r: Slideshow)
        ensures
            !r.is_running,
            r.images@.len() == 0,
            r.current_index == 0,
            r.last_switch == 0,
            !r.completed_once,
    {
        Slideshow {
            is_running: false,
            images: Vec::new(),
            current_index: 0,
            last_switch: 0,
            completed_once: false,
        }
    }
}

impl Slideshow {
    pub open spec fn view(&self) -> SlideView {
        SlideView {
            running: self.is_running,
            images: tags_view(self.images@),
            index: self.current_index as int,
            completed: self.completed_once,
        }
    }

    /// A running slideshow points at one of its images.
    pub open spec fn wf(&self) -> bool {
        self.is_running ==> self.current_index < self.images@.len()
    }

    /// Starts over on `images` at the first one; runs only if there is one.
    pub fn start(&mut self, images: Vec<String>, now: u64)
        ensures
            final(self).images == images,
            final(self).current_index == 0,
            final(self).is_running == (images@.len() > 0),
            final(self).last_switch == now,
            !final(self).completed_once,
            final(self).wf(),
    {
        self.images = images;
        self.current_index = 0;
        self.is_running = self.images.len() != 0;
        self.last_switch = now;
        self.completed_once = false;
    }

    /// Stops the slideshow wherever it is.
    pub fn stop(&mut self)
        ensures
            *final(self) == (Slideshow { is_running: false, ..*old(self) }),
    {
        self.is_running = false;
    }

    /// Called on every tick: once `interval` ms have passed since the last
    /// advance, moves on and returns the image to show. Past the last image
    /// it marks the pass completed and either starts over or stops.
    pub fn update(&mut self, now: u64, interval: u64, should_loop: bool) -> (r: Option<String>)
        requires
            old(self).wf(),
        ensures
            final(self).wf(),
            ({
                let fires = old(self).is_running && old(self).images@.len() > 0 && now
                    >= old(self).last_switch && now - old(self).last_switch >= interval;
                if fires {
                    &&& final(self)@ == advanced(old(self)@, should_loop)
                    &&& final(self).last_switch == now
                    &&& final(self).images == old(self).images
                    &&& opt_view(r) == shown(old(self)@, should_loop)
                } else {
                    &&& *final(self) == *old(self)
                    &&& r is None
                }
            }),
    {
        if !self.is_running || self.images.len() == 0 {
            return None;
        }
        if now < self.last_switch || now - self.last_switch < interval {
            return None;
        }
        self.last_switch = now;
        self.current_index += 1;
        if self.current_index >= self.images.len() {
            self.completed_once = true;
            if should_loop {
                self.current_index = 0;
            } else {
                self.is_running = false;
                return None;
            }
        }
        Some(self.images[self.current_index].clone())
    }

    /// The image the slideshow points at, if the index is in range.
    pub fn current_image(&self) -> (r: Option<&String>)
        ensures
            match r {
                Some(s) => self.current_index < self.images@.len() && *s == self.images@[self.current_index as int],
                None => self.current_index >= self.images@.len(),
            },
    {
        if self.current_index < self.images.len() {
            Some(&self.images[self.current_index])
        } else {
            None
        }
    }
}

} // verus!
