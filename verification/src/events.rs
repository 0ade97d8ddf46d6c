//! Changes in a watched wallpaper directory and what they do to the image
//! queue of the wallpapers of that directory's output.

use vstd::prelude::*;
use crate::queue::{enqueue_files, remove_files, enqueued, without, rotate};
use crate::wallpaper::{Activation, Source, Wallpaper, all_marked, cache_belongs};

verus! {

/// How a path was renamed.
#[derive(Clone, Copy, Debug)]
pub enum RenameMode {
    Any,
    To,
    From,
    Both,
    Other,
}

/// How a path was modified.
#[derive(Clone, Copy, Debug)]
pub enum ModifyKind {
    Any,
    Data,
    Metadata,
    Name(RenameMode),
    Other,
}

/// What happened to the paths of a file system event.
#[derive(Clone, Copy, Debug)]
pub enum EventKind {
    Any,
    Access,
    Create,
    Modify(ModifyKind),
    Remove,
    Other,
}

/// What an event means for a slideshow.
#[derive(Clone, Copy, Debug)]
pub enum SourceChange {
    /// The paths appeared: created, or renamed into the directory.
    Added,
    /// The paths went away: removed, or renamed out of the directory.
    Removed,
    /// Nothing that changes the set of images.
    Unrelated,
}

/// The meaning of an event of kind `kind`.
pub open spec fn spec_classify(kind: EventKind) -> SourceChange {
    match kind {
        EventKind::Create => SourceChange::Added,
        EventKind::Modify(ModifyKind::Name(RenameMode::To)) => SourceChange::Added,
        EventKind::Remove => SourceChange::Removed,
        EventKind::Modify(ModifyKind::Name(RenameMode::From)) => SourceChange::Removed,
        _ => SourceChange::Unrelated,
    }
}

/// Only creations and renames into the directory add images, and only
/// removals and renames out of it remove them; every other kind of event
/// (an access, a change of data or of metadata, any other rename) leaves the
/// images as they are.
pub proof fn law_classify_kinds(kind: EventKind)
    ensures
        spec_classify(kind) is Added <==> (kind is Create || kind == EventKind::Modify(
            ModifyKind::Name(RenameMode::To),
        )),
        spec_classify(kind) is Removed <==> (kind is Remove || kind == EventKind::Modify(
            ModifyKind::Name(RenameMode::From),
        )),
        spec_classify(kind) is Unrelated <==> !(kind is Create || kind is Remove || kind
            == EventKind::Modify(ModifyKind::Name(RenameMode::To)) || kind == EventKind::Modify(
            ModifyKind::Name(RenameMode::From),
        )),
{
}

/// Creations and renames into the directory add images; removals and renames
/// out of it remove them; other events change nothing.
pub fn classify(kind: &EventKind) -> (c: SourceChange)
    ensures
        c == spec_classify(*kind),
        c is Added <==> (*kind is Create || *kind == EventKind::Modify(
            ModifyKind::Name(RenameMode::To),
        )),
        c is Removed <==> (*kind is Remove || *kind == EventKind::Modify(
            ModifyKind::Name(RenameMode::From),
        )),
{
    proof {
        law_classify_kinds(*kind);
    }
    match kind {
        EventKind::Create => SourceChange::Added,
        EventKind::Modify(ModifyKind::Name(RenameMode::To)) => SourceChange::Added,
        EventKind::Remove => SourceChange::Removed,
        EventKind::Modify(ModifyKind::Name(RenameMode::From)) => SourceChange::Removed,
        _ => SourceChange::Unrelated,
    }
}

/// How the source of a wallpaper is watched for changes.
#[derive(Clone, Copy, Debug)]
pub enum WatchMode {
    /// A directory, with everything below it.
    Recursive,
    /// A single file.
    NonRecursive,
}

/// How to watch a source path that exists (`present`) as a directory (`is_dir`) or a regular
/// file (`is_file`); `None` for a source that does not exist or is neither.
pub fn watch_mode(present: bool, is_dir: bool, is_file: bool) -> (m: Option<WatchMode>)
    ensures
        m == (if present && is_dir {
            Some(WatchMode::Recursive)
        } else if present && is_file {
            Some(WatchMode::NonRecursive)
        } else {
            None
        }),
{
    if present {
        if is_dir {
            Some(WatchMode::Recursive)
        } else if is_file {
            Some(WatchMode::NonRecursive)
        } else {
            None
        }
    } else {
        None
    }
}

impl<C: Clone> Wallpaper<C> {
    /// The path to watch for changes: that of a path source; a color source
    /// has none.
    pub fn watched_path(&self) -> (r: Option<String>)
        ensures
            r == match self.entry.source {
                Source::Path(p) => Some(p),
                Source::Color(_) => None,
            },
    {
        match &self.entry.source {
            Source::Path(p) => Some(p.clone()),
            Source::Color(_) => None,
        }
    }

    /// A change in the source directory of the output `output`. `files` are
    /// the paths of the event that are regular files, `paths` all its paths.
    /// A wallpaper of another output is left as it is. Added files are queued
    /// (those not queued yet, in order) and the wallpaper is activated, which
    /// gives the caller's actions; removed paths leave the queue.
    pub fn on_source_event(
        &mut self,
        output: &String,
        change: SourceChange,
        files: &Vec<String>,
        paths: &Vec<String>,
    ) -> (r: Option<Activation>)
        ensures
            cache_belongs(*old(self)) ==> cache_belongs(*final(self)),
            (old(self).entry.output@ != output@ || change is Unrelated) ==> r is None && *final(self) == *old(self),
            (old(self).entry.output@ == output@ && change is Removed) ==> {
                &&& r is None
                &&& final(self).image_queue@ == without(old(self).image_queue@, paths@)
                &&& final(self).entry == old(self).entry
                &&& final(self).layers == old(self).layers
                &&& final(self).current_source == old(self).current_source
                &&& final(self).cached_image == old(self).cached_image
                &&& final(self).timer_active == old(self).timer_active
            },
            (old(self).entry.output@ == output@ && change is Added) ==> {
                let q = enqueued(old(self).image_queue@, files@);
                &&& r matches Some(a)
                &&& a.start_timer == (!old(self).timer_active && old(self).entry.rotation_frequency
                    > 0)
                &&& a.shown == (old(self).current_source is None && q.len() > 0)
                &&& final(self).entry == old(self).entry
                &&& final(self).timer_active == old(self).timer_active
                &&& a.shown ==> {
                    &&& final(self).current_source == Some(Source::<C>::Path(q[0]))
                    &&& final(self).image_queue@ == rotate(q, 1)
                    &&& final(self).cached_image is None
                    &&& all_marked(old(self).layers@, final(self).layers@)
                }
                &&& !a.shown ==> {
                    &&& final(self).image_queue@ == q
                    &&& final(self).current_source == old(self).current_source
                    &&& final(self).layers == old(self).layers
                    &&& final(self).cached_image == old(self).cached_image
                }
            },
    {
        if self.entry.output != *output {
            return None;
        }
        match change {
            SourceChange::Added => {
                enqueue_files(&mut self.image_queue, files);
                Some(self.ensure_active())
            },
            SourceChange::Removed => {
                remove_files(&mut self.image_queue, paths);
                None
            },
            SourceChange::Unrelated => None,
        }
    }
}

} // verus!
