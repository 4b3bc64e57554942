//! The levels that a channel gives to every sound it starts.

use vstd::prelude::*;
use kira::sound::static_sound::StaticSoundData;
use kira::track::effect::panning_control::PanningControlBuilder;
use kira::PlaybackRate;
use kira::Volume;
use crate::backend::default_levels;
use crate::backend::facts_of;
use crate::backend::sound_set_levels;
use crate::backend::with_levels;

verus! {

/// The levels of one channel. A level that nobody has set is `None` and
/// stands for the default that the audio output keeps: kira's full volume,
/// normal speed and the centre.
#[derive(Clone, Copy, Debug)]
pub struct ChannelState {
    pub volume: Option<Volume>,
    pub playback_rate: Option<PlaybackRate>,
    pub panning: Option<PanningControlBuilder>,
}

impl Default for ChannelState {
    fn default() -> (state: ChannelState)
        ensures
            state == ChannelState::unset(),
    {
        ChannelState { volume: None, playback_rate: None, panning: None }
    }
}

impl ChannelState {
    /// The levels of a channel on which nothing has been set.
    pub open spec fn unset() -> ChannelState {
        ChannelState { volume: None, playback_rate: None, panning: None }
    }

    /// The levels that a sound gets which starts under these: each level
    /// that has been set, and that of `defaults` for each that has not.
    pub open spec fn resolved(self, defaults: Levels) -> Levels {
        Levels {
            volume: match self.volume {
                Some(volume) => volume,
                None => defaults.volume,
            },
            playback_rate: match self.playback_rate {
                Some(playback_rate) => playback_rate,
                None => defaults.playback_rate,
            },
            panning: match self.panning {
                Some(panning) => panning,
                None => defaults.panning,
            },
        }
    }

    /// The levels that a sound gets which starts under these: each level
    /// that has been set, and that of `defaults` for each that has not.
    pub fn levels(&self, defaults: Levels) -> (levels: Levels)
        ensures
            levels == self.resolved(defaults),
    {
        Levels {
            volume: match self.volume {
                Some(volume) => volume,
                None => defaults.volume,
            },
            playback_rate: match self.playback_rate {
                Some(playback_rate) => playback_rate,
                None => defaults.playback_rate,
            },
            panning: match self.panning {
                Some(panning) => panning,
                None => defaults.panning,
            },
        }
    }

    /// Overrides the levels that `sound` carries by these: all three are
    /// written, each as it was set, and as `defaults` has it where it was
    /// not. Nothing else of the sound changes.
    pub fn apply(&self, sound: &mut StaticSoundData, defaults: Levels)
        ensures
            *final(sound) == leveled(*old(sound), self.resolved(defaults)),
            facts_of(*final(sound)) == facts_of(*old(sound)),
    {
        let levels = self.levels(defaults);
        sound_set_levels(sound, levels.volume, levels.playback_rate, levels.panning);
    }
}

/// A volume, a playback rate and a panning.
#[derive(Clone, Copy, Debug)]
pub struct Levels {
    pub volume: Volume,
    pub playback_rate: PlaybackRate,
    pub panning: PanningControlBuilder,
}

impl Levels {
    /// The levels that kira gives a sound on which nobody has set any.
    pub fn of_kira() -> (levels: Levels) {
        let (volume, playback_rate, panning) = default_levels();
        Levels { volume, playback_rate, panning }
    }
}

/// `sound` with `levels` written into the settings it carries.
pub open spec fn leveled(sound: StaticSoundData, levels: Levels) -> StaticSoundData {
    with_levels(sound, levels.volume, levels.playback_rate, levels.panning)
}

/// The levels of a channel, `None` while nothing has been set on it, after
/// its volume has been set to `volume`.
pub open spec fn volume_set(settings: Option<ChannelState>, volume: Volume) -> ChannelState {
    match settings {
        Some(state) => ChannelState { volume: Some(volume), ..state },
        None => ChannelState { volume: Some(volume), ..ChannelState::unset() },
    }
}

/// As `volume_set`, for the playback rate.
pub open spec fn playback_rate_set(
    settings: Option<ChannelState>,
    playback_rate: PlaybackRate,
) -> ChannelState {
    match settings {
        Some(state) => ChannelState { playback_rate: Some(playback_rate), ..state },
        None => ChannelState { playback_rate: Some(playback_rate), ..ChannelState::unset() },
    }
}

/// As `volume_set`, for the panning.
pub open spec fn panning_set(
    settings: Option<ChannelState>,
    panning: PanningControlBuilder,
) -> ChannelState {
    match settings {
        Some(state) => ChannelState { panning: Some(panning), ..state },
        None => ChannelState { panning: Some(panning), ..ChannelState::unset() },
    }
}

/// The volume that was set on a channel, if one was.
pub open spec fn volume_of(settings: Option<ChannelState>) -> Option<Volume> {
    match settings {
        Some(state) => state.volume,
        None => None,
    }
}

/// The playback rate that was set on a channel, if one was.
pub open spec fn playback_rate_of(settings: Option<ChannelState>) -> Option<PlaybackRate> {
    match settings {
        Some(state) => state.playback_rate,
        None => None,
    }
}

/// The panning that was set on a channel, if one was.
pub open spec fn panning_of(settings: Option<ChannelState>) -> Option<PanningControlBuilder> {
    match settings {
        Some(state) => state.panning,
        None => None,
    }
}

} // verus!
