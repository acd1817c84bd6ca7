//! Playing a loaded game: the state shared between the simulation and the
//! renderer, loading, and the message queues.

pub mod messaging;
pub mod loadstate;

use vstd::prelude::*;

verus! {

/// State shared between the simulation systems and the renderer: what
/// changed since the renderer last looked.
pub struct GameStateResource {
    pub keycode: Option<u32>,
    pub camera_changed: bool,
    pub vox_moved: bool,
    pub models_moved: bool,
    pub lights_changed: bool,
    pub dirty_tiles: Vec<usize>,
}

/// What the renderer must redo this frame, taken from a `GameStateResource`.
pub struct FrameUpdates {
    pub camera_changed: bool,
    pub vox_moved: bool,
    pub models_moved: bool,
    pub lights_changed: bool,
    pub dirty_tiles: Vec<usize>,
}

impl GameStateResource {
    /// Nothing changed, and no key is pressed.
    pub fn new() -> (g: Self)
        ensures
            g.keycode is None,
            !g.camera_changed,
            !g.vox_moved,
            !g.models_moved,
            !g.lights_changed,
            g.dirty_tiles@ == Seq::<usize>::empty(),
    {
        GameStateResource {
            keycode: None,
            camera_changed: false,
            vox_moved: false,
            models_moved: false,
            lights_changed: false,
            dirty_tiles: Vec::new(),
        }
    }

    /// Records the key pressed this frame; nothing else changes.
    pub fn frame_update(&mut self, keycode: Option<u32>)
        ensures
            final(self).keycode == keycode,
            final(self).camera_changed == old(self).camera_changed,
            final(self).vox_moved == old(self).vox_moved,
            final(self).models_moved == old(self).models_moved,
            final(self).lights_changed == old(self).lights_changed,
            final(self).dirty_tiles@ == old(self).dirty_tiles@,
    {
        self.keycode = keycode;
    }

    /// Hands the renderer every pending change and clears them, as the
    /// renderer does when it reacts to each: the result holds the flags and
    /// dirty tiles that were set, and afterwards none is.
    pub fn take_updates(&mut self) -> (u: FrameUpdates)
        ensures
            u.camera_changed == old(self).camera_changed,
            u.vox_moved == old(self).vox_moved,
            u.models_moved == old(self).models_moved,
            u.lights_changed == old(self).lights_changed,
            u.dirty_tiles@ == old(self).dirty_tiles@,
            final(self).keycode == old(self).keycode,
            !final(self).camera_changed,
            !final(self).vox_moved,
            !final(self).models_moved,
            !final(self).lights_changed,
            final(self).dirty_tiles@ == Seq::<usize>::empty(),
    {
        let mut u = FrameUpdates {
            camera_changed: false,
            vox_moved: false,
            models_moved: false,
            lights_changed: false,
            dirty_tiles: Vec::new(),
        };
        if self.camera_changed {
            self.camera_changed = false;
            u.camera_changed = true;
        }
        if self.vox_moved {
            self.vox_moved = false;
            u.vox_moved = true;
        }
        if self.models_moved {
            self.models_moved = false;
            u.models_moved = true;
        }
        if self.lights_changed {
            self.lights_changed = false;
            u.lights_changed = true;
        }
        if self.dirty_tiles.len() > 0 {
            std::mem::swap(&mut u.dirty_tiles, &mut self.dirty_tiles);
        }
        u
    }
}

} // verus!
