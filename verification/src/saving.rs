//! When the transcript is saved: shortly after recall, output or the save
//! settings change, once no write is under way.

use crate::persistence::PersistenceSettings;
use vstd::prelude::*;

verus! {

/// How long after a change the transcript is written, in nanoseconds.
pub const SAVE_DEBOUNCE_NANOS: u128 = 250_000_000;

/// What the saver remembers between frames.
#[derive(Debug, Clone, Copy, PartialEq, Eq, Structural)]
pub struct SaveTracker {
    /// The first frame has been seen.
    pub initialized: bool,
    /// The recall revision last seen.
    pub revision: u64,
    /// The save settings last seen.
    pub settings: PersistenceSettings,
    /// A change awaits writing.
    pub dirty: bool,
    /// When the pending change is to be written, in nanoseconds since start.
    pub save_at: u128,
}

/// What the host reports each frame.
#[derive(Debug, Clone, Copy, PartialEq, Eq, Structural)]
pub struct SaveInputs {
    /// The current recall revision.
    pub revision: u64,
    /// The current save settings.
    pub settings: PersistenceSettings,
    /// The history file's path differs from the one last remembered.
    pub path_changed: bool,
    /// The output buffer changed since the last frame.
    pub buffer_changed: bool,
    /// A write started earlier has not finished.
    pub writing: bool,
    /// The time now, in nanoseconds since start.
    pub now: u128,
}

/// What the host does after a frame.
#[derive(Debug, Clone, Copy, PartialEq, Eq, Structural)]
pub enum SaveStep {
    /// Nothing.
    Idle,
    /// Remember the current path: the settings and revision were taken in.
    Remember,
    /// Write the transcript now.
    Write,
}

/// The saver after a frame with inputs `i`, and what the host does. The
/// first frame only takes in the revision and settings. Later, a new
/// revision, new settings, a new path, or (unless only recall is saved) new
/// output are taken in and mark a change, due one debounce after the first
/// unsaved change. With nothing new, a due change is written when no write
/// is under way.
pub open spec fn save_next(t: SaveTracker, i: SaveInputs) -> (SaveTracker, SaveStep) {
    if !t.initialized {
        (SaveTracker { initialized: true, revision: i.revision, settings: i.settings, ..t }, SaveStep::Remember)
    } else {
        let changed = i.path_changed || i.settings != t.settings || (!i.settings.recall_only
            && i.buffer_changed) || i.revision != t.revision;
        if !changed {
            if t.dirty && !i.writing && i.now >= t.save_at {
                (SaveTracker { dirty: false, ..t }, SaveStep::Write)
            } else {
                (t, SaveStep::Idle)
            }
        } else {
            (
                SaveTracker {
                    revision: i.revision,
                    settings: i.settings,
                    dirty: true,
                    save_at: if t.dirty {
                        t.save_at
                    } else {
                        (i.now + SAVE_DEBOUNCE_NANOS) as u128
                    },
                    ..t
                },
                SaveStep::Remember,
            )
        }
    }
}

impl SaveTracker {
    /// A saver that has seen no frame.
    pub fn new() -> (r: Self)
        ensures
            r == (SaveTracker {
                initialized: false,
                revision: 0,
                settings: PersistenceSettings { max_saved_lines: 256, recall_only: false, max_line_length: None },
                dirty: false,
                save_at: 0,
            }),
    {
        SaveTracker {
            initialized: false,
            revision: 0,
            settings: PersistenceSettings::default(),
            dirty: false,
            save_at: 0,
        }
    }

    /// One frame (see [`save_next`]).
    pub fn step(&mut self, inputs: &SaveInputs) -> (r: SaveStep)
        requires
            inputs.now + SAVE_DEBOUNCE_NANOS <= u128::MAX,
        ensures
            (*final(self), r) == save_next(*old(self), *inputs),
    {
        if !self.initialized {
            self.initialized = true;
            self.revision = inputs.revision;
            self.settings = inputs.settings;
            return SaveStep::Remember;
        }
        let same_settings = self.settings.max_saved_lines == inputs.settings.max_saved_lines
            && self.settings.recall_only == inputs.settings.recall_only && match (
            self.settings.max_line_length,
            inputs.settings.max_line_length,
        ) {
            (Some(a), Some(b)) => a == b,
            (None, None) => true,
            _ => false,
        };
        let changed = inputs.path_changed || !same_settings || (!inputs.settings.recall_only
            && inputs.buffer_changed) || inputs.revision != self.revision;
        if !changed {
            if self.dirty && !inputs.writing && inputs.now >= self.save_at {
                self.dirty = false;
                return SaveStep::Write;
            }
            return SaveStep::Idle;
        }
        self.revision = inputs.revision;
        self.settings = inputs.settings;
        if !self.dirty {
            self.save_at = inputs.now + SAVE_DEBOUNCE_NANOS;
        }
        self.dirty = true;
        SaveStep::Remember
    }
}

} // verus!
