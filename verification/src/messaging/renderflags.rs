//! What the renderer must refresh: lights, models, terrain, and which tiles.

use vstd::prelude::*;

verus! {

/// Pending render work.
#[derive(Clone)]
pub struct RenderFlags {
    pub lights_changed: bool,
    pub models_changed: bool,
    pub terrain_changed: bool,
    pub dirty_tiles: Vec<usize>,
}

impl RenderFlags {
    /// Nothing pending.
    pub open spec fn is_clear(&self) -> bool {
        &&& !self.lights_changed
        &&& !self.models_changed
        &&& !self.terrain_changed
        &&& self.dirty_tiles@ == Seq::<usize>::empty()
    }

    /// No render work pending.
    pub fn new() -> (f: Self)
        ensures
            f.is_clear(),
    {
        Self { lights_changed: false, models_changed: false, terrain_changed: false, dirty_tiles: Vec::new() }
    }

    /// Forgets all pending render work.
    pub fn reset(&mut self)
        ensures
            final(self).is_clear(),
    {
        self.lights_changed = false;
        self.models_changed = false;
        self.terrain_changed = false;
        self.dirty_tiles.clear();
    }

    /// A copy of these flags.
    pub fn copy(&self) -> (c: Self)
        ensures
            c.lights_changed == self.lights_changed,
            c.models_changed == self.models_changed,
            c.terrain_changed == self.terrain_changed,
            c.dirty_tiles@ == self.dirty_tiles@,
    {
        let mut tiles: Vec<usize> = Vec::new();
        let mut i: usize = 0;
        while i < self.dirty_tiles.len()
            invariant
                i <= self.dirty_tiles@.len(),
                tiles@ == self.dirty_tiles@.take(i as int),
            decreases self.dirty_tiles@.len() - i,
        {
            tiles.push(self.dirty_tiles[i]);
            i = i + 1;
            assert(tiles@ =~= self.dirty_tiles@.take(i as int));
        }
        assert(tiles@ =~= self.dirty_tiles@);
        RenderFlags {
            lights_changed: self.lights_changed,
            models_changed: self.models_changed,
            terrain_changed: self.terrain_changed,
            dirty_tiles: tiles,
        }
    }
}

} // verus!
