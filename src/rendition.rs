use vstd::prelude::*;

verus! {

/// A stored quality variant of a recording.
#[derive(Clone, Copy, Debug, PartialEq, Eq, Structural)]
pub enum Rendition {
    VideoSource,
    VideoHd,
    VideoSd,
    VideoLd,
    AudioSource,
}

impl Rendition {
    pub open spec fn spec_is_audio(self) -> bool {
        self == Rendition::AudioSource
    }

    pub fn is_audio(&self) -> (r: bool)
        ensures
            r == self.spec_is_audio(),
    {
        match self {
            Rendition::AudioSource => true,
            _ => false,
        }
    }

    pub fn is_video(&self) -> (r: bool)
        ensures
            r == !self.spec_is_audio(),
    {
        match self {
            Rendition::AudioSource => false,
            _ => true,
        }
    }
}

} // verus!
