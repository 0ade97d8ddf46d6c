//! The state of the wallpaper of one output and the decisions taken on it:
//! which image to show, when to move on, what to draw.
//!
//! The work with the outside world (walking directories, decoding images,
//! drawing, timers, the saved state) is done by the caller, which hands the
//! results in as plain values and performs the actions handed back.

use std::collections::VecDeque;
use vstd::prelude::*;
use crate::order::{sort_paths, sorted_paths, shuffle_paths};
use crate::queue::{
    advance, find_path, resume_from, rotate, has_path, first_at, distinct_paths, key,
    law_rotate_keeps_images, law_rotate_distinct, lemma_rotate_step, lemma_first_at_unique,
};
use crate::scaler::{scaled_length, spec_scaled_length};

verus! {

/// How the images of a directory are ordered for the slideshow.
#[derive(Clone, Copy, Debug)]
pub enum SamplingMethod {
    Alphanumeric,
    Random,
}

/// How an image is brought to the size of a layer. `Fit` fills the margins
/// with the entry's color, which the caller keeps.
#[derive(Clone, Copy, Debug)]
pub enum Scaling {
    Fit,
    Zoom,
    Stretch,
}

/// The resampling filter used when scaling.
#[derive(Clone, Copy, Debug)]
pub enum FilterMethod {
    Nearest,
    Linear,
    Lanczos,
}

/// What a wallpaper shows: an image file (or the images of a directory), or a
/// color of type `C`, which this library carries without looking into it.
#[derive(Clone, Debug)]
pub enum Source<C> {
    Path(String),
    Color(C),
}

/// `b` is a copy of `a`: the same path, or a clone of the same color.
pub open spec fn is_copy_of<C: Clone>(a: Source<C>, b: Source<C>) -> bool {
    match (a, b) {
        (Source::Path(x), Source::Path(y)) => x == y,
        (Source::Color(x), Source::Color(y)) => cloned(x, y),
        _ => false,
    }
}

impl<C: Clone> Source<C> {
    /// A copy of this source: the same path, or a clone of the color.
    pub fn duplicate(&self) -> (r: Self)
        ensures
            is_copy_of(*self, r),
    {
        match self {
            Source::Path(p) => Source::Path(p.clone()),
            Source::Color(c) => Source::Color(c.clone()),
        }
    }
}

/// The configuration of the wallpaper of one output (or of all outputs).
#[derive(Debug)]
pub struct Entry<C> {
    /// The output's name, or `all`.
    pub output: String,
    pub source: Source<C>,
    pub sampling_method: SamplingMethod,
    pub scaling: Scaling,
    pub filter: FilterMethod,
    /// Seconds between two images of a slideshow; 0 for no slideshow.
    pub rotation_frequency: u64,
}

/// What the drawing logic reads of one layer surface.
#[derive(Debug)]
pub struct Layer {
    /// The name of the output that the layer is on, if the compositor gave one.
    pub output_name: Option<String>,
    pub needs_redraw: bool,
    /// Whether the layer has a buffer pool to draw into.
    pub has_pool: bool,
    /// The scale factor in 120ths, once the compositor sent it.
    pub fractional_scale: Option<u32>,
    /// The logical size, once the layer was configured.
    pub size: Option<(u32, u32)>,
}

/// The wallpaper of one entry of the configuration.
#[derive(Debug)]
pub struct Wallpaper<C> {
    pub entry: Entry<C>,
    pub layers: Vec<Layer>,
    /// The images still to come; the one shown last is at the back.
    pub image_queue: VecDeque<String>,
    /// What is shown now.
    pub current_source: Option<Source<C>>,
    /// The path whose decoded image the caller keeps cached, if any.
    pub cached_image: Option<String>,
    /// Whether a rotation timer is registered.
    pub timer_active: bool,
}

/// The cached image belongs to the source that is shown.
pub open spec fn cache_belongs<C>(w: Wallpaper<C>) -> bool {
    w.cached_image matches Some(p) ==> w.current_source == Some(Source::<C>::Path(p))
}

/// The queue `q` after resuming from the path `last`: turned so that the first
/// path naming the same file as `last` is in front, or unchanged when `q`
/// holds no such path.
pub open spec fn resumed(q: Seq<String>, last: Option<String>) -> Seq<String> {
    match last {
        Some(p) => if has_path(q, key(p)) {
            rotate(q, choose|k: int| first_at(q, key(p), k))
        } else {
            q
        },
        None => q,
    }
}

/// The image queue after a slideshow over the images `ordered` started, resuming
/// from `last`: the first image is shown and goes to the back.
pub open spec fn started_queue(ordered: Seq<String>, last: Option<String>) -> Seq<String> {
    let r = resumed(ordered, last);
    if r.len() == 0 {
        r
    } else {
        rotate(r, 1)
    }
}

/// What the caller does after `ensure_active`.
#[derive(Debug)]
pub struct Activation {
    /// A new image is shown: save the state and draw.
    pub shown: bool,
    /// Register the rotation timer.
    pub start_timer: bool,
}

/// What becomes of the rotation timer after it fired.
#[derive(Debug)]
pub enum TimerAction {
    /// Fire again after this many seconds.
    Reschedule(u64),
    /// Remove the timer.
    Drop,
}

/// How the image of a layer is obtained.
#[derive(Debug)]
pub enum Render {
    /// The image rendered for the previous layer has the right size.
    Reuse,
    /// Bring the image at `path` to the layer's size with `scaling` and
    /// `filter`, decoding it first when `decode` is set (else the cached
    /// image is that of `path`).
    Image { path: String, decode: bool, scaling: Scaling, filter: FilterMethod },
    /// Fill with the color that is shown.
    Color,
}

/// What to do with one layer when drawing.
#[derive(Debug)]
pub enum DrawStep {
    /// Nothing to draw on this layer now.
    Skip,
    /// The layer needs an image but nothing is shown.
    NoSource,
    /// Paint an image of `width` by `height` pixels onto the layer.
    Paint { width: u32, height: u32, render: Render },
}

/// `after` are the layers `before`, each marked for redrawing.
pub open spec fn all_marked(before: Seq<Layer>, after: Seq<Layer>) -> bool {
    &&& after.len() == before.len()
    &&& forall|i: int|
        0 <= i < after.len() ==> {
            &&& (#[trigger] after[i]).needs_redraw
            &&& after[i].output_name == before[i].output_name
            &&& after[i].has_pool == before[i].has_pool
            &&& after[i].fractional_scale == before[i].fractional_scale
            &&& after[i].size == before[i].size
        }
}

/// `after` is `before` with the next image of its queue shown: the front
/// image became the shown one and moved to the back, the cached image was
/// dropped and every layer is to be redrawn.
pub open spec fn shows_next<C>(before: Wallpaper<C>, after: Wallpaper<C>) -> bool {
    &&& before.image_queue@.len() > 0
    &&& after.current_source == Some(Source::<C>::Path(before.image_queue@[0]))
    &&& after.image_queue@ == rotate(before.image_queue@, 1)
    &&& after.cached_image is None
    &&& all_marked(before.layers@, after.layers@)
    &&& after.entry == before.entry
    &&& after.timer_active == before.timer_active
}

/// Whether a wallpaper in state `w` asks for a rotation timer when activated.
pub open spec fn wants_timer<C>(w: Wallpaper<C>) -> bool {
    !w.timer_active && w.entry.rotation_frequency > 0
}

/// `ensure_active` took `before` to `after` and answered `a`.
pub open spec fn activated<C>(before: Wallpaper<C>, after: Wallpaper<C>, a: Activation) -> bool {
    &&& a.start_timer == wants_timer(before)
    &&& a.shown == (before.current_source is None && before.image_queue@.len() > 0)
    &&& a.shown ==> shows_next(before, after)
    &&& !a.shown ==> after == before
}

/// The rotation timer fired in state `before`, leaving `after` and the
/// answer `a`: the next image, or, with an empty queue, the timer's end.
pub open spec fn timer_fired<C>(before: Wallpaper<C>, after: Wallpaper<C>, a: TimerAction) -> bool {
    if before.image_queue@.len() == 0 {
        &&& a is Drop
        &&& after == Wallpaper { timer_active: false, ..before }
    } else {
        &&& a == TimerAction::Reschedule(before.entry.rotation_frequency)
        &&& shows_next(before, after)
    }
}

/// A slideshow whose timer was dropped for want of images gets a timer again
/// as soon as it is activated, when its entry rotates.
pub proof fn law_timer_restarts_after_drop<C>(
    w0: Wallpaper<C>,
    w1: Wallpaper<C>,
    w2: Wallpaper<C>,
    a: Activation,
)
    requires
        timer_fired(w0, w1, TimerAction::Drop),
        activated(w1, w2, a),
        w0.entry.rotation_frequency > 0,
    ensures
        a.start_timer,
{
}

/// The timer goes on firing while the queue holds images: it is dropped only
/// when the queue is empty, and each firing shows the queue's next image.
pub proof fn law_timer_drops_only_when_empty<C>(
    w0: Wallpaper<C>,
    w1: Wallpaper<C>,
    a: TimerAction,
)
    requires
        timer_fired(w0, w1, a),
    ensures
        (a is Drop) <==> w0.image_queue@.len() == 0,
        !(a is Drop) ==> w1.current_source == Some(Source::<C>::Path(w0.image_queue@[0])),
        w1.image_queue@.len() == w0.image_queue@.len(),
{
    if w0.image_queue@.len() > 0 {
        law_rotate_keeps_images(w0.image_queue@, 1);
    }
}

/// A run of timer firings over a queue of `n >= 1` images: the `i`-th firing
/// shows the `i`-th image of the queue and asks to fire again after the
/// rotation period, and after `n` firings the queue is as it was.
pub proof fn law_timer_run<C>(ws: Seq<Wallpaper<C>>, acts: Seq<TimerAction>)
    requires
        ws.len() == acts.len() + 1,
        acts.len() == ws[0].image_queue@.len(),
        acts.len() >= 1,
        forall|i: int| 0 <= i < acts.len() ==> timer_fired(#[trigger] ws[i], ws[i + 1], acts[i]),
    ensures
        forall|i: int|
            0 <= i < acts.len() ==> (#[trigger] ws[i + 1]).current_source == Some(
                Source::<C>::Path(ws[0].image_queue@[i]),
            ) && acts[i] == TimerAction::Reschedule(ws[0].entry.rotation_frequency),
        ws[acts.len() as int].image_queue@ == ws[0].image_queue@,
{
    let q0 = ws[0].image_queue@;
    let n = acts.len() as int;
    lemma_timer_steps(ws, acts, n);
    assert(rotate(q0, n) =~= q0);
    assert forall|i: int| 0 <= i < n implies (#[trigger] ws[i + 1]).current_source == Some(
        Source::<C>::Path(q0[i]),
    ) && acts[i] == TimerAction::Reschedule(ws[0].entry.rotation_frequency) by {
        assert(ws[i].image_queue@ == rotate(q0, i));
        assert(rotate(q0, i)[0] == q0[i]);
    }
}

/// During a run of firings the `m`-th state holds the queue turned by `m`
/// places and the entry of the start.
proof fn lemma_timer_steps<C>(ws: Seq<Wallpaper<C>>, acts: Seq<TimerAction>, m: int)
    requires
        ws.len() == acts.len() + 1,
        acts.len() == ws[0].image_queue@.len(),
        acts.len() >= 1,
        forall|i: int| 0 <= i < acts.len() ==> timer_fired(#[trigger] ws[i], ws[i + 1], acts[i]),
        0 <= m <= acts.len(),
    ensures
        forall|i: int|
            0 <= i <= m ==> (#[trigger] ws[i]).image_queue@ == rotate(ws[0].image_queue@, i)
                && ws[i].entry == ws[0].entry,
    decreases m,
{
    let q0 = ws[0].image_queue@;
    if m == 0 {
        assert(rotate(q0, 0) =~= q0);
    } else {
        lemma_timer_steps(ws, acts, m - 1);
        assert(timer_fired(ws[m - 1], ws[m], acts[m - 1]));
        law_rotate_keeps_images(q0, m - 1);
        lemma_rotate_step(q0, m - 1);
    }
}

/// The cached image keeps belonging to the shown source when the timer fires
/// and when the wallpaper is activated.
pub proof fn law_cache_follows_source<C>(
    w0: Wallpaper<C>,
    w1: Wallpaper<C>,
    t: TimerAction,
    w2: Wallpaper<C>,
    a: Activation,
)
    requires
        cache_belongs(w0),
    ensures
        timer_fired(w0, w1, t) ==> cache_belongs(w1),
        activated(w0, w2, a) ==> cache_belongs(w2),
{
}

/// A queue that holds each path once keeps doing so when the timer fires and
/// when the wallpaper is activated.
pub proof fn law_queue_stays_distinct<C>(
    w0: Wallpaper<C>,
    w1: Wallpaper<C>,
    t: TimerAction,
    w2: Wallpaper<C>,
    a: Activation,
)
    requires
        distinct_paths(w0.image_queue@),
    ensures
        timer_fired(w0, w1, t) ==> distinct_paths(w1.image_queue@),
        activated(w0, w2, a) ==> distinct_paths(w2.image_queue@),
{
    if w0.image_queue@.len() > 0 {
        law_rotate_distinct(w0.image_queue@, 1);
    }
}

/// The size in pixels of a layer, if it can be drawn: it has a pool, a scale
/// and a size.
pub open spec fn pixel_size(l: Layer) -> Option<(u32, u32)> {
    if l.has_pool && l.fractional_scale is Some && l.size is Some {
        let s = l.fractional_scale->0;
        let (w, h) = l.size->0;
        Some((spec_scaled_length(w, s), spec_scaled_length(h, s)))
    } else {
        None
    }
}

/// The pixel size of a layer to be drawn can be computed without overflow.
pub open spec fn scalable(l: Layer) -> bool {
    l.needs_redraw && l.has_pool ==> (l.fractional_scale matches Some(s) && l.size matches Some((w, h))
        ==> w * s <= u32::MAX && h * s <= u32::MAX)
}

/// Whether `w` shows a path that reads `p`.
pub open spec fn shows_path<C>(w: Wallpaper<C>, p: String) -> bool {
    match w.current_source {
        Some(Source::Path(q)) => q@ == p@,
        _ => false,
    }
}

/// Whether the cached image is that of the path `p`.
pub open spec fn is_cached<C>(w: Wallpaper<C>, p: String) -> bool {
    match w.cached_image {
        Some(c) => c@ == p@,
        None => false,
    }
}

/// The step that `draw_step` gives for a layer `l` of wallpaper `w`, when
/// an image of size `rendered` was rendered last during this drawing.
pub open spec fn expected_step<C>(w: Wallpaper<C>, l: Layer, rendered: Option<(u32, u32)>) -> DrawStep {
    if !l.needs_redraw || pixel_size(l) is None {
        DrawStep::Skip
    } else {
        let (pw, ph) = pixel_size(l)->0;
        if rendered == Some((pw, ph)) {
            DrawStep::Paint { width: pw, height: ph, render: Render::Reuse }
        } else {
            match w.current_source {
                None => DrawStep::NoSource,
                Some(Source::Path(p)) => DrawStep::Paint {
                    width: pw,
                    height: ph,
                    render: Render::Image {
                        path: p,
                        decode: !is_cached(w, p),
                        scaling: w.entry.scaling,
                        filter: w.entry.filter,
                    },
                },
                Some(Source::Color(_)) => DrawStep::Paint { width: pw, height: ph, render: Render::Color },
            }
        }
    }
}

/// What is drawn on a layer follows from the layer, the entry and what is
/// shown. A layer is skipped exactly when it does not need a redraw or lacks a
/// pool, a scale or a size. Otherwise it is painted at its logical size times
/// the scale (in 120ths, rounded down), reusing the image rendered last
/// exactly when that has this size in both width and height; else the shown
/// image is brought to that size with the entry's scaling mode and filter,
/// decoded unless it is the cached one, or the shown color is filled in, and
/// only a wallpaper that shows nothing has nothing to paint.
pub proof fn law_draw_step_follows_layer<C>(w: Wallpaper<C>, l: Layer, rendered: Option<(u32, u32)>)
    requires
        scalable(l),
    ensures
        ({
            let step = expected_step(w, l, rendered);
            let drawable = l.needs_redraw && l.has_pool && l.fractional_scale is Some && l.size is Some;
            let s = l.fractional_scale->0;
            let lw = (l.size->0).0;
            let lh = (l.size->0).1;
            let fits = rendered matches Some((rw, rh)) && rw == lw * s / 120 && rh == lh * s / 120;
            &&& step is Skip <==> !drawable
            &&& step is NoSource <==> (drawable && w.current_source is None && !fits)
            &&& step matches DrawStep::Paint { width, height, render } ==> {
                &&& drawable
                &&& width == lw * s / 120
                &&& height == lh * s / 120
                &&& render is Reuse <==> rendered == Some((width, height))
                &&& render is Reuse <==> fits
                &&& render is Image <==> (!fits && w.current_source matches Some(Source::Path(_)))
                &&& render is Color <==> (!fits && w.current_source matches Some(Source::Color(_)))
                &&& render matches Render::Image { path, decode, scaling, filter } ==> {
                    &&& w.current_source == Some(Source::<C>::Path(path))
                    &&& scaling == w.entry.scaling
                    &&& filter == w.entry.filter
                    &&& decode == !(w.cached_image matches Some(c) && c@ == path@)
                }
            }
        }),
{
    if l.needs_redraw && l.has_pool && l.fractional_scale is Some && l.size is Some {
        let s = l.fractional_scale->0;
        let (lw, lh) = l.size->0;
        assert(lw * s <= u32::MAX && lh * s <= u32::MAX);
        assert(spec_scaled_length(lw, s) == lw * s / 120);
        assert(spec_scaled_length(lh, s) == lh * s / 120);
    }
}

/// The first of the wallpapers, given by the outputs of their entries, that
/// belongs to the output named `output`.
pub fn find_wallpaper(outputs: &Vec<String>, output: &String) -> (r: Option<usize>)
    ensures
        match r {
            Some(i) => i < outputs@.len() && outputs@[i as int]@ == output@ && forall|j: int|
                0 <= j < i ==> (#[trigger] outputs@[j])@ != output@,
            None => forall|j: int| 0 <= j < outputs@.len() ==> (#[trigger] outputs@[j])@ != output@,
        },
{
    let n = outputs.len();
    let mut i: usize = 0;
    while i < n
        invariant
            n == outputs@.len(),
            i <= n,
            forall|j: int| 0 <= j < i ==> (#[trigger] outputs@[j])@ != output@,
        decreases n - i,
    {
        if outputs[i] == *output {
            return Some(i);
        }
        i = i + 1;
    }
    None
}

/// Resuming turns the queue, so it keeps its length.
pub proof fn lemma_resumed_len(ordered: Seq<String>, last: Option<String>)
    ensures
        resumed(ordered, last).len() == ordered.len(),
{
    if let Some(p) = last {
        if has_path(ordered, key(p)) {
            lemma_first_exists(ordered, key(p));
            let k = choose|k: int| first_at(ordered, key(p), k);
            law_rotate_keeps_images(ordered, k);
        }
    }
}

/// Starting a slideshow keeps its images: the queue holds the same paths as
/// the images it was started over; the image shown (the front after resuming)
/// is the one at the back of the queue; and when the images hold a path naming
/// the file that was shown before, that path is shown again.
pub proof fn law_start_keeps_images(ordered: Seq<String>, last: Option<String>)
    ensures
        started_queue(ordered, last).to_multiset() == ordered.to_multiset(),
        started_queue(ordered, last).len() == ordered.len(),
        ordered.len() > 0 ==> started_queue(ordered, last).last() == resumed(ordered, last)[0],
        last matches Some(p) ==> (has_path(ordered, key(p)) ==> key(resumed(ordered, last)[0])
            == key(p)),
{
    let r = resumed(ordered, last);
    if let Some(p) = last {
        if has_path(ordered, key(p)) {
            lemma_first_exists(ordered, key(p));
            let k = choose|k: int| first_at(ordered, key(p), k);
            law_rotate_keeps_images(ordered, k);
        }
    }
    if r.len() > 0 {
        law_rotate_keeps_images(r, 1);
    }
}

/// A slideshow started over images that are each there once has each of them
/// once in its queue.
pub proof fn law_start_distinct(ordered: Seq<String>, last: Option<String>)
    requires
        distinct_paths(ordered),
    ensures
        distinct_paths(started_queue(ordered, last)),
{
    let r = resumed(ordered, last);
    if let Some(p) = last {
        if has_path(ordered, key(p)) {
            lemma_first_exists(ordered, key(p));
            let k = choose|k: int| first_at(ordered, key(p), k);
            law_rotate_distinct(ordered, k);
        }
    }
    if r.len() > 0 {
        law_rotate_distinct(r, 1);
    }
}

/// A path that a queue holds has a first position in it.
pub proof fn lemma_first_exists(q: Seq<String>, p: Seq<Seq<char>>)
    requires
        has_path(q, p),
    ensures
        exists|k: int| first_at(q, p, k),
    decreases q.len(),
{
    let init = q.drop_last();
    if has_path(init, p) {
        lemma_first_exists(init, p);
        let k = choose|k: int| first_at(init, p, k);
        assert(first_at(q, p, k)) by {
            assert forall|j: int| 0 <= j < k implies key(#[trigger] q[j]) != p by {
                assert(init[j] == q[j]);
            }
            assert(init[k] == q[k]);
        }
    } else {
        let k = q.len() - 1;
        assert(key(q[k]) == p) by {
            let t = choose|t: int| 0 <= t < q.len() && key(#[trigger] q[t]) == p;
            if t < k {
                assert(init[t] == q[t]);
            }
        }
        assert(first_at(q, p, k)) by {
            assert forall|j: int| 0 <= j < k implies key(#[trigger] q[j]) != p by {
                assert(init[j] == q[j]);
            }
        }
    }
}

/// Loading the images `found` of the source of `entry`, resuming from `last`,
/// in a wallpaper that showed `prev`, gave the wallpaper `after`: a color
/// source shows its color and has no images; a path source starts a slideshow
/// over its images, put in some order (alphanumeric when the entry says so,
/// unchanged for at most one image).
pub open spec fn load_outcome<C: Clone>(
    entry: Entry<C>,
    found: Seq<String>,
    last: Option<String>,
    prev: Option<Source<C>>,
    after: Wallpaper<C>,
) -> bool {
    match entry.source {
        Source::Color(c) => {
            &&& after.image_queue@.len() == 0
            &&& after.current_source matches Some(Source::Color(d)) && cloned(c, d)
        },
        Source::Path(_) => exists|ordered: Seq<String>| #![trigger started_queue(ordered, last)]
            {
                &&& ordered.to_multiset() == found.to_multiset()
                &&& found.len() <= 1 ==> ordered == found
                &&& (entry.sampling_method is Alphanumeric) ==> sorted_paths(ordered)
                &&& after.image_queue@ == started_queue(ordered, last)
                &&& resumed(ordered, last).len() > 0 ==> after.current_source == Some(
                    Source::<C>::Path(resumed(ordered, last)[0]),
                )
                &&& resumed(ordered, last).len() == 0 ==> after.current_source == prev
            },
    }
}

/// Whether loading `found` for `entry` replaces what is shown.
pub open spec fn load_replaces<C>(entry: Entry<C>, found: Seq<String>) -> bool {
    entry.source is Color || found.len() > 0
}

impl<C: Clone> Wallpaper<C> {
    /// The wallpaper of `entry`: its images `found` are loaded (resuming from
    /// `last`) and it is activated, which asks for the rotation timer when the
    /// entry rotates; nothing else is to be shown or saved yet.
    pub fn new(entry: Entry<C>, found: Vec<String>, last: Option<String>) -> (r: (Self, Activation))
        ensures
            r.0.entry == entry,
            r.0.layers@.len() == 0,
            !r.0.timer_active,
            r.0.cached_image is None,
            load_outcome(entry, found@, last, None, r.0),
            !r.1.shown,
            r.1.start_timer == (entry.rotation_frequency > 0),
    {
        let mut w = Wallpaper {
            entry,
            layers: Vec::new(),
            image_queue: VecDeque::new(),
            current_source: None,
            cached_image: None,
            timer_active: false,
        };
        w.load_images(found, last);
        let a = w.ensure_active();
        (w, a)
    }

    /// Starts a slideshow over `ordered`: resumes from `last` (the image that
    /// was shown before, if the queue holds a path naming the same file),
    /// shows the first image and moves it to the back. With no images, what is
    /// shown stays as it was.
    pub fn start_slideshow(&mut self, ordered: Vec<String>, last: Option<String>)
        ensures
            final(self).image_queue@ == started_queue(ordered@, last),
            resumed(ordered@, last).len() > 0 ==> {
                &&& final(self).current_source == Some(
                    Source::<C>::Path(resumed(ordered@, last)[0]),
                )
                &&& final(self).cached_image is None
            },
            resumed(ordered@, last).len() == 0 ==> {
                &&& final(self).current_source == old(self).current_source
                &&& final(self).cached_image == old(self).cached_image
            },
            final(self).layers == old(self).layers,
            final(self).entry == old(self).entry,
            final(self).timer_active == old(self).timer_active,
            cache_belongs(*old(self)) ==> cache_belongs(*final(self)),
    {
        let mut queue: VecDeque<String> = VecDeque::new();
        let n = ordered.len();
        let mut i: usize = 0;
        while i < n
            invariant
                n == ordered@.len(),
                i <= n,
                queue@ == ordered@.take(i as int),
            decreases n - i,
        {
            queue.push_back(ordered[i].clone());
            assert(ordered@.take(i + 1) =~= ordered@.take(i as int).push(ordered@[i as int]));
            i = i + 1;
        }
        assert(ordered@.take(n as int) =~= ordered@);
        let ghost q0 = queue@;
        if let Some(l) = &last {
            if queue.len() > 1 {
                if let Some(k) = find_path(&queue, l) {
                    resume_from(&mut queue, l);
                    proof {
                        let c = choose|c: int| first_at(q0, key(*l), c);
                        lemma_first_at_unique(q0, key(*l), c, k as int);
                    }
                }
            } else {
                proof {
                    if has_path(q0, key(*l)) {
                        let c = choose|c: int| first_at(q0, key(*l), c);
                        assert(first_at(q0, key(*l), 0));
                        lemma_first_at_unique(q0, key(*l), c, 0);
                        assert(rotate(q0, 0) =~= q0);
                    }
                }
            }
        }
        assert(queue@ == resumed(q0, last));
        if queue.len() > 0 {
            match advance(&mut queue) {
                Some(current) => {
                    self.current_source = Some(Source::Path(current));
                    self.cached_image = None;
                },
                None => {},
            }
        }
        self.image_queue = queue;
    }

    /// Loads the images of the configured source: `found` are the image files
    /// of a path source, in the order in which they were found, and `last` the
    /// image that was shown before. More than one image is put into
    /// alphanumeric order or shuffled, as the entry says; then the slideshow
    /// starts. A color source shows its color and has no images. When what is
    /// shown is replaced, the cached image is dropped; the layers are left as
    /// they are.
    pub fn load_images(&mut self, found: Vec<String>, last: Option<String>)
        ensures
            load_outcome(old(self).entry, found@, last, old(self).current_source, *final(self)),
            final(self).entry == old(self).entry,
            final(self).timer_active == old(self).timer_active,
            final(self).layers == old(self).layers,
            load_replaces(old(self).entry, found@) ==> final(self).cached_image is None,
            !load_replaces(old(self).entry, found@) ==> {
                &&& final(self).cached_image == old(self).cached_image
                &&& final(self).current_source == old(self).current_source
            },
            final(self).image_queue@.len() > 0 ==> final(self).current_source is Some,
            cache_belongs(*old(self)) ==> cache_belongs(*final(self)),
    {
        proof {
            broadcast use vstd::seq_lib::to_multiset_len;

        }
        match &self.entry.source {
            Source::Color(c) => {
                let d = c.clone();
                assert(cloned(*c, d));
                self.current_source = Some(Source::Color(d));
                self.image_queue = VecDeque::new();
                self.cached_image = None;
            },
            Source::Path(_) => {
                let mut ordered = found;
                if ordered.len() > 1 {
                    match self.entry.sampling_method {
                        SamplingMethod::Alphanumeric => {
                            ordered = sort_paths(ordered);
                        },
                        SamplingMethod::Random => {
                            shuffle_paths(&mut ordered);
                        },
                    }
                }
                let ghost o = ordered@;
                assert(found@.len() <= 1 ==> o == found@);
                assert((self.entry.sampling_method is Alphanumeric && found@.len() > 1) ==> sorted_paths(o));
                assert(found@.len() <= 1 ==> sorted_paths(o));
                assert(o.len() == found@.len()) by {
                    assert(o.to_multiset().len() == found@.to_multiset().len());
                }
                proof {
                    lemma_resumed_len(o, last);
                    law_start_keeps_images(o, last);
                }
                self.start_slideshow(ordered, last);
                assert(exists|ordered: Seq<String>| #![trigger started_queue(ordered, last)]
                    {
                        &&& ordered.to_multiset() == found@.to_multiset()
                        &&& found@.len() <= 1 ==> ordered == found@
                        &&& (old(self).entry.sampling_method is Alphanumeric) ==> sorted_paths(
                            ordered,
                        )
                        &&& self.image_queue@ == started_queue(ordered, last)
                        &&& resumed(ordered, last).len() > 0 ==> self.current_source
                            == Some(Source::<C>::Path(resumed(ordered, last)[0]))
                        &&& resumed(ordered, last).len() == 0 ==> self.current_source
                            == old(self).current_source
                    }) by {
                    assert(o.to_multiset() == found@.to_multiset());
                    assert(self.image_queue@ == started_queue(o, last));
                }
            },
        }
    }

    /// Forgets the cached image and marks every layer for redrawing.
    pub fn clear_image(&mut self)
        ensures
            final(self).cached_image is None,
            all_marked(old(self).layers@, final(self).layers@),
            final(self).entry == old(self).entry,
            final(self).image_queue == old(self).image_queue,
            final(self).current_source == old(self).current_source,
            final(self).timer_active == old(self).timer_active,
    {
        self.cached_image = None;
        let n = self.layers.len();
        let mut i: usize = 0;
        while i < n
            invariant
                n == self.layers@.len(),
                n == old(self).layers@.len(),
                i <= n,
                self.cached_image is None,
                forall|j: int|
                    0 <= j < n ==> {
                        &&& (j < i ==> (#[trigger] self.layers@[j]).needs_redraw)
                        &&& (j >= i ==> self.layers@[j].needs_redraw == old(self).layers@[j].needs_redraw)
                        &&& self.layers@[j].output_name == old(self).layers@[j].output_name
                        &&& self.layers@[j].has_pool == old(self).layers@[j].has_pool
                        &&& self.layers@[j].fractional_scale == old(self).layers@[j].fractional_scale
                        &&& self.layers@[j].size == old(self).layers@[j].size
                    },
                self.entry == old(self).entry,
                self.image_queue == old(self).image_queue,
                self.current_source == old(self).current_source,
                self.timer_active == old(self).timer_active,
            decreases n - i,
        {
            self.layers[i].needs_redraw = true;
            i = i + 1;
        }
    }

    /// The caller decoded and cached the image at `path`. It is kept as the
    /// cached image when it is the path shown; else nothing changes.
    pub fn image_decoded(&mut self, path: &String)
        ensures
            shows_path(*old(self), *path) ==> final(self).cached_image == Some(
                old(self).current_source->0->Path_0,
            ),
            !shows_path(*old(self), *path) ==> final(self).cached_image == old(self).cached_image,
            final(self).entry == old(self).entry,
            final(self).layers == old(self).layers,
            final(self).image_queue == old(self).image_queue,
            final(self).current_source == old(self).current_source,
            final(self).timer_active == old(self).timer_active,
            cache_belongs(*old(self)) ==> cache_belongs(*final(self)),
    {
        let shown = match &self.current_source {
            Some(Source::Path(p)) => if *p == *path {
                Some(p.clone())
            } else {
                None
            },
            _ => None,
        };
        if let Some(p) = shown {
            self.cached_image = Some(p);
        }
    }

    /// Layer `i` was painted: it no longer needs redrawing. Nothing else changes.
    pub fn layer_painted(&mut self, i: usize)
        requires
            i < old(self).layers@.len(),
        ensures
            final(self).layers@ == old(self).layers@.update(
                i as int,
                Layer { needs_redraw: false, ..old(self).layers@[i as int] },
            ),
            final(self).entry == old(self).entry,
            final(self).image_queue == old(self).image_queue,
            final(self).current_source == old(self).current_source,
            final(self).cached_image == old(self).cached_image,
            final(self).timer_active == old(self).timer_active,
    {
        self.layers[i].needs_redraw = false;
    }

    /// Shows the next queued image when nothing is shown yet (files arrived
    /// in a source that was empty), and asks for the rotation timer when none
    /// is registered and the entry rotates.
    pub fn ensure_active(&mut self) -> (a: Activation)
        ensures
            activated(*old(self), *final(self), a),
    {
        let mut shown = false;
        if self.current_source.is_none() && self.image_queue.len() > 0 {
            if let Some(next) = advance(&mut self.image_queue) {
                self.current_source = Some(Source::Path(next));
                self.clear_image();
                shown = true;
            }
        }
        let start_timer = !self.timer_active && self.entry.rotation_frequency > 0;
        Activation { shown, start_timer }
    }

    /// The rotation timer fired: shows the next image of the queue and fires
    /// again after the rotation period; with an empty queue the timer is dropped.
    pub fn on_timer(&mut self) -> (a: TimerAction)
        ensures
            timer_fired(*old(self), *final(self), a),
    {
        if self.image_queue.len() == 0 {
            self.timer_active = false;
            return TimerAction::Drop;
        }
        match advance(&mut self.image_queue) {
            Some(next) => {
                self.current_source = Some(Source::Path(next));
                self.clear_image();
                TimerAction::Reschedule(self.entry.rotation_frequency)
            },
            None => {
                self.timer_active = false;
                TimerAction::Drop
            },
        }
    }

    /// What to draw on layer `i`, when an image of size `rendered` was
    /// rendered last during this drawing (`None` before the first).
    pub fn draw_step(&self, i: usize, rendered: Option<(u32, u32)>) -> (step: DrawStep)
        requires
            i < self.layers@.len(),
            scalable(self.layers@[i as int]),
        ensures
            step == expected_step(*self, self.layers@[i as int], rendered),
            step matches DrawStep::Paint { width, height, render } ==> {
                &&& render is Reuse <==> rendered == Some((width, height))
                &&& render matches Render::Image { path, scaling, filter, .. } ==> {
                    &&& self.current_source == Some(Source::<C>::Path(path))
                    &&& scaling == self.entry.scaling
                    &&& filter == self.entry.filter
                }
            },
    {
        proof {
            law_draw_step_follows_layer(*self, self.layers@[i as int], rendered);
        }
        let layer = &self.layers[i];
        if !layer.needs_redraw || !layer.has_pool {
            return DrawStep::Skip;
        }
        let scale = match layer.fractional_scale {
            Some(s) => s,
            None => {
                return DrawStep::Skip;
            },
        };
        let (w, h) = match layer.size {
            Some(size) => size,
            None => {
                return DrawStep::Skip;
            },
        };
        let width = scaled_length(w, scale);
        let height = scaled_length(h, scale);
        let same = match rendered {
            Some((rw, rh)) => rw == width && rh == height,
            None => false,
        };
        if same {
            return DrawStep::Paint { width, height, render: Render::Reuse };
        }
        match &self.current_source {
            None => DrawStep::NoSource,
            Some(Source::Path(p)) => {
                let decode = match &self.cached_image {
                    Some(c) => !(*c == *p),
                    None => true,
                };
                DrawStep::Paint {
                    width,
                    height,
                    render: Render::Image {
                        path: p.clone(),
                        decode,
                        scaling: self.entry.scaling,
                        filter: self.entry.filter,
                    },
                }
            },
            Some(Source::Color(_)) => DrawStep::Paint { width, height, render: Render::Color },
        }
    }
}

} // verus!
