use vstd::prelude::*;

verus! {

/// The song timeline; all positions are in ticks.
pub struct Playlist {
    pub clips: Vec<Clip>,
}

/// Something placed on the timeline.
#[derive(Clone, Copy, PartialEq, Eq, Structural, Debug)]
pub enum Clip {
    Pattern(PatternClip),
}

/// A pattern placed on the timeline.
#[derive(Clone, Copy, PartialEq, Eq, Structural, Debug)]
pub struct PatternClip {
    pub pattern_index: usize,
    pub begin: u32,
    pub end: u32,
    /// Where, relative to `begin`, playback of the pattern starts.
    pub offset: u32,
    pub track: u8,
}

impl PatternClip {
    pub open spec fn wf(&self) -> bool {
        self.begin <= self.end
    }

    pub fn pos_begin(&self) -> (r: u32)
        ensures
            r == self.begin,
    {
        self.begin
    }

    pub fn pos_end(&self) -> (r: u32)
        ensures
            r == self.end,
    {
        self.end
    }

    pub fn offset(&self) -> (r: u32)
        ensures
            r == self.offset,
    {
        self.offset
    }

    pub fn track(&self) -> (r: u8)
        ensures
            r == self.track,
    {
        self.track
    }

    /// Length on the timeline.
    pub fn length(&self) -> (r: u32)
        requires
            self.wf(),
        ensures
            r == self.end - self.begin,
    {
        self.end - self.begin
    }
}

impl Clip {
    pub open spec fn inner(&self) -> PatternClip {
        match self {
            Clip::Pattern(c) => *c,
        }
    }

    pub fn pos_begin(&self) -> (r: u32)
        ensures
            r == self.inner().begin,
    {
        match self {
            Clip::Pattern(c) => c.pos_begin(),
        }
    }

    pub fn pos_end(&self) -> (r: u32)
        ensures
            r == self.inner().end,
    {
        match self {
            Clip::Pattern(c) => c.pos_end(),
        }
    }

    pub fn offset(&self) -> (r: u32)
        ensures
            r == self.inner().offset,
    {
        match self {
            Clip::Pattern(c) => c.offset(),
        }
    }

    pub fn track(&self) -> (r: u8)
        ensures
            r == self.inner().track,
    {
        match self {
            Clip::Pattern(c) => c.track(),
        }
    }

    pub fn length(&self) -> (r: u32)
        requires
            self.inner().wf(),
        ensures
            r == self.inner().end - self.inner().begin,
    {
        match self {
            Clip::Pattern(c) => c.length(),
        }
    }
}

} // verus!
