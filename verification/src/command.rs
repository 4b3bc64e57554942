//! The commands a channel queues, and how one attempt to run a command ends.

use vstd::prelude::*;
use kira::track::effect::panning_control::PanningControlBuilder;
use kira::PlaybackRate;
use kira::Volume;
use crate::instance::InstanceHandle;

verus! {

/// Names a sound in the store of loaded sounds.
#[derive(Clone, Copy, Debug, PartialEq, Eq, Hash, Structural)]
pub struct SourceId {
    pub id: u64,
}

/// What to play and how.
#[derive(Clone, Copy, Debug)]
pub struct PlayAudioSettings {
    /// The sound to play.
    pub source: SourceId,
    /// A sound that is meant to come once before `source`, if any. It is
    /// carried with the command; the audio output starts `source` alone.
    pub intro_source: Option<SourceId>,
    /// Whether `source` starts over when it ends.
    pub looped: bool,
}

/// A play request with the handle that was promised for it.
#[derive(Clone, Copy, Debug)]
pub struct PlayAudioCommandArgs {
    pub settings: PlayAudioSettings,
    pub instance_handle: InstanceHandle,
}

/// One request to a channel. It holds all that an attempt to run it needs,
/// and an attempt that has to be repeated puts the same value back.
#[derive(Clone, Copy, Debug)]
pub enum AudioCommand {
    Play(PlayAudioCommandArgs),
    Stop,
    Pause,
    Resume,
    SetVolume(Volume),
    /// kira has no type for a panning of its own; the builder of its panning
    /// control is the one value it has that holds just a panning.
    SetPanning(PanningControlBuilder),
    SetPlaybackRate(PlaybackRate),
}

/// How one attempt to run a command ended.
#[derive(Clone, Copy, Debug, PartialEq, Eq, Structural)]
pub enum AudioCommandResult {
    /// The command has been carried out and leaves the queue.
    Done,
    /// Something the command needs is not there yet; it goes back into the
    /// queue for the next tick.
    Retry,
    /// The command could not be carried out and will not be tried again.
    Failed,
}

} // verus!
