use vstd::prelude::*;

verus! {

/// Radius, in chunks, of the sphere of chunks kept around the player.
#[derive(Clone, Copy, Debug, PartialEq, Eq, Structural)]
pub struct RenderDistance {
    chunks: u32,
}

impl RenderDistance {
    pub closed spec fn spec_chunks(self) -> u32 {
        self.chunks
    }

    /// A render distance of `chunks` chunks; at least one.
    pub fn new(chunks: u32) -> (r: RenderDistance)
        requires
            chunks > 0,
        ensures
            r.spec_chunks() == chunks,
    {
        RenderDistance { chunks }
    }

    pub fn chunks(self) -> (r: u32)
        ensures
            r == self.spec_chunks(),
    {
        self.chunks
    }
}

impl Default for RenderDistance {
    fn default() -> (r: RenderDistance)
        ensures
            r.spec_chunks() == 8,
    {
        RenderDistance { chunks: 8 }
    }
}

/// What one streaming step did: chunks scheduled for loading, chunks
/// loaded into the world, and chunks unloaded from it.
#[derive(Clone, Copy, Debug, PartialEq, Eq, Structural)]
pub struct StreamingUpdate {
    scheduled: usize,
    loaded: usize,
    unloaded: usize,
}

impl StreamingUpdate {
    pub closed spec fn spec_scheduled(self) -> usize {
        self.scheduled
    }

    pub closed spec fn spec_loaded(self) -> usize {
        self.loaded
    }

    pub closed spec fn spec_unloaded(self) -> usize {
        self.unloaded
    }

    /// The result of moving the streaming center.
    pub fn scheduled(scheduled: usize, unloaded: usize) -> (r: StreamingUpdate)
        ensures
            r.spec_scheduled() == scheduled,
            r.spec_loaded() == 0,
            r.spec_unloaded() == unloaded,
    {
        StreamingUpdate { scheduled, loaded: 0, unloaded }
    }

    /// The result of loading generated chunks.
    pub fn loaded(loaded: usize) -> (r: StreamingUpdate)
        ensures
            r.spec_scheduled() == 0,
            r.spec_loaded() == loaded,
            r.spec_unloaded() == 0,
    {
        StreamingUpdate { scheduled: 0, loaded, unloaded: 0 }
    }

    pub fn scheduled_count(self) -> (r: usize)
        ensures
            r == self.spec_scheduled(),
    {
        self.scheduled
    }

    pub fn loaded_count(self) -> (r: usize)
        ensures
            r == self.spec_loaded(),
    {
        self.loaded
    }

    pub fn unloaded_count(self) -> (r: usize)
        ensures
            r == self.spec_unloaded(),
    {
        self.unloaded
    }

    /// The set of resident chunks changed.
    pub fn world_changed(self) -> (r: bool)
        ensures
            r == (self.spec_loaded() > 0 || self.spec_unloaded() > 0),
    {
        self.loaded > 0 || self.unloaded > 0
    }
}

impl Default for StreamingUpdate {
    fn default() -> (r: StreamingUpdate)
        ensures
            r.spec_scheduled() == 0,
            r.spec_loaded() == 0,
            r.spec_unloaded() == 0,
    {
        StreamingUpdate { scheduled: 0, loaded: 0, unloaded: 0 }
    }
}

} // verus!
