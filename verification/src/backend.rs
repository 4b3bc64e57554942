//! Everything this library asks of kira. Verus does not look inside kira:
//! each function here makes one request and hands back what kira answered,
//! and nothing is claimed of what a sound then does.

use vstd::prelude::*;
use kira::manager::AudioManager;
use kira::sound::static_sound::StaticSoundData;
use kira::sound::static_sound::StaticSoundHandle;
use kira::sound::static_sound::StaticSoundSettings;
use kira::track::effect::panning_control::PanningControlBuilder;
use kira::tween::Tween;
use kira::CommandError;
use kira::LoopBehavior;
use kira::PlaybackRate;
use kira::Volume;
use crate::instance::PlaybackState;
use crate::sound::SoundFacts;

verus! {

/// kira's audio manager, on the backend that kira was built with. Verus
/// cannot be told of the manager's own type, which is bound by a trait of
/// kira, so the manager is held here and stays closed to Verus. Whoever sets
/// the audio device up makes this value.
#[verifier::external_body]
pub struct Manager {
    pub kira: AudioManager,
}

/// kira's `StaticSoundData`, a loaded sound with the settings to play it
/// with. Closed to Verus: a value to carry.
#[verifier::external_type_specification]
#[verifier::external_body]
pub struct ExStaticSoundData(StaticSoundData);

/// kira's `StaticSoundHandle`, the caller's end of a sound that kira plays.
/// Closed to Verus: a value to carry.
#[verifier::external_type_specification]
#[verifier::external_body]
pub struct ExStaticSoundHandle(StaticSoundHandle);

/// kira's `Volume`. Closed to Verus: a value to carry.
#[verifier::external_type_specification]
#[verifier::external_body]
pub struct ExVolume(Volume);

/// kira's `PlaybackRate`. Closed to Verus: a value to carry.
#[verifier::external_type_specification]
#[verifier::external_body]
pub struct ExPlaybackRate(PlaybackRate);

/// kira's `PanningControlBuilder`, which holds one panning. Closed to
/// Verus: a value to carry.
#[verifier::external_type_specification]
#[verifier::external_body]
pub struct ExPanningControlBuilder(PanningControlBuilder);

/// The states that kira reports of a sound it was given.
#[derive(Clone, Copy, Debug, PartialEq, Eq, Structural)]
pub enum SoundState {
    Playing,
    /// Fading out towards a pause.
    Pausing,
    Paused,
    /// Fading out towards the end.
    Stopping,
    Stopped,
}

impl SoundState {
    /// What callers are told of a sound in this state: a fade counts as the
    /// state it leads to.
    pub open spec fn spec_published(self) -> PlaybackState {
        match self {
            SoundState::Playing => PlaybackState::Playing,
            SoundState::Pausing | SoundState::Paused => PlaybackState::Paused,
            SoundState::Stopping | SoundState::Stopped => PlaybackState::Stopped,
        }
    }

    /// Whether the sound plays at full level: the one state in which a
    /// pause is sent.
    pub fn is_playing(self) -> (playing: bool)
        ensures
            playing == (self == SoundState::Playing),
    {
        match self {
            SoundState::Playing => true,
            _ => false,
        }
    }

    /// Whether the sound is held: the one state in which a resume is sent.
    pub fn is_paused(self) -> (paused: bool)
        ensures
            paused == (self == SoundState::Paused),
    {
        match self {
            SoundState::Paused => true,
            _ => false,
        }
    }

    /// Whether the sound has ended for good: the one state in which its
    /// instance is forgotten.
    pub fn is_stopped(self) -> (stopped: bool)
        ensures
            stopped == (self == SoundState::Stopped),
    {
        match self {
            SoundState::Stopped => true,
            _ => false,
        }
    }

    #[verifier::when_used_as_spec(spec_published)]
    pub fn published(self) -> (state: PlaybackState)
        ensures
            state == self.spec_published(),
    {
        match self {
            SoundState::Playing => PlaybackState::Playing,
            SoundState::Pausing | SoundState::Paused => PlaybackState::Paused,
            SoundState::Stopping | SoundState::Stopped => PlaybackState::Stopped,
        }
    }
}

/// How kira took a request that was sent to a sound.
#[derive(Clone, Copy, Debug, PartialEq, Eq, Structural)]
pub enum Delivery {
    /// The request is on its way to the sound.
    Sent,
    /// The sound's request buffer is full for the moment.
    QueueFull,
    /// kira gave another error.
    Refused,
}

impl Delivery {
    /// Whether the request has to be made again later: so it is where the
    /// sound's request buffer was full, and only there. What kira took is
    /// on its way, and kira's other errors are passed over.
    pub fn puts_off(self) -> (again: bool)
        ensures
            again == (self == Delivery::QueueFull),
    {
        match self {
            Delivery::QueueFull => true,
            _ => false,
        }
    }
}

/// `StaticSoundHandle::state`: the state that the audio thread last wrote
/// down for the sound, one variant of ours for each of kira's. Nothing is
/// claimed of which it is.
#[verifier::external_body]
pub(crate) fn handle_state(handle: &StaticSoundHandle) -> (state: SoundState) {
    match handle.state() {
        kira::sound::static_sound::PlaybackState::Playing => SoundState::Playing,
        kira::sound::static_sound::PlaybackState::Pausing => SoundState::Pausing,
        kira::sound::static_sound::PlaybackState::Paused => SoundState::Paused,
        kira::sound::static_sound::PlaybackState::Stopping => SoundState::Stopping,
        kira::sound::static_sound::PlaybackState::Stopped => SoundState::Stopped,
    }
}

/// `StaticSoundHandle::stop` with kira's default fade. The answer tells a
/// full request buffer from kira's other errors; nothing is claimed of which
/// answer comes.
#[verifier::external_body]
pub(crate) fn handle_stop(handle: &mut StaticSoundHandle) -> (delivery: Delivery) {
    match handle.stop(Tween::default()) {
        Ok(()) => Delivery::Sent,
        Err(CommandError::CommandQueueFull) => Delivery::QueueFull,
        Err(_) => Delivery::Refused,
    }
}

/// `StaticSoundHandle::pause` with kira's default fade. kira's answer is
/// dropped.
#[verifier::external_body]
pub(crate) fn handle_pause(handle: &mut StaticSoundHandle) {
    let _ = handle.pause(Tween::default());
}

/// `StaticSoundHandle::resume` with kira's default fade. kira's answer is
/// dropped.
#[verifier::external_body]
pub(crate) fn handle_resume(handle: &mut StaticSoundHandle) {
    let _ = handle.resume(Tween::default());
}

/// `StaticSoundHandle::set_volume` with kira's default fade. kira's answer is
/// dropped.
#[verifier::external_body]
pub(crate) fn handle_set_volume(handle: &mut StaticSoundHandle, volume: Volume) {
    let _ = handle.set_volume(volume, Tween::default());
}

/// `StaticSoundHandle::set_playback_rate` with kira's default fade. kira's
/// answer is dropped.
#[verifier::external_body]
pub(crate) fn handle_set_playback_rate(handle: &mut StaticSoundHandle, playback_rate: PlaybackRate) {
    let _ = handle.set_playback_rate(playback_rate, Tween::default());
}

/// `StaticSoundHandle::set_panning` with kira's default fade, given the
/// panning that the builder holds. kira's answer is dropped.
#[verifier::external_body]
pub(crate) fn handle_set_panning(handle: &mut StaticSoundHandle, panning: PanningControlBuilder) {
    let _ = handle.set_panning(panning.0, Tween::default());
}

/// What the start of `sound` depends on: the number of its frames, its
/// sample rate, whether it is reversed, and the bits of its start position
/// and of the position that its loop goes back to.
pub uninterp spec fn facts_of(sound: StaticSoundData) -> SoundFacts;

/// Reads what the start of the sound depends on: `facts_of` the sound. The
/// two positions are doubles in kira and come as their bits, by std's
/// `to_bits`.
#[verifier::external_body]
pub(crate) fn sound_facts(sound: &StaticSoundData) -> (facts: SoundFacts)
    ensures
        facts == facts_of(*sound),
{
    SoundFacts {
        frames: sound.frames.len(),
        sample_rate: sound.sample_rate,
        reverse: sound.settings.reverse,
        start_position: sound.settings.start_position.to_bits(),
        loop_start: sound.settings.loop_behavior.map(|behavior| behavior.start_position.to_bits()),
    }
}

/// `AudioManager::play`: hands the sound to kira. `Some` holds the handle of
/// the sound that kira took; `None` stands for each of kira's errors. Nothing
/// is claimed of which comes.
///
/// kira makes the sound ready before it answers, and that fails the program
/// for some sounds: it looks up the frame at the start position, and the
/// frame that the loop goes back to, without asking whether the sound has
/// that frame; and for a reversed sound it works out the length in seconds,
/// which it cannot for every sample rate. Such sounds are left out here: the
/// sound has a frame, is not reversed, and both positions lie at one of its
/// frames, by the bound that `SoundFacts::spec_startable` speaks of.
#[verifier::external_body]
pub(crate) fn start_sound(manager: &mut Manager, sound: StaticSoundData) -> (started: Option<
    StaticSoundHandle,
>)
    requires
        facts_of(sound).spec_startable(),
{
    manager.kira.play(sound).ok()
}

/// `StaticSoundData::clone`: a value equal to `sound`, with the same samples
/// and the same settings.
#[verifier::external_body]
pub(crate) fn clone_sound(sound: &StaticSoundData) -> (copy: StaticSoundData)
    ensures
        copy == *sound,
{
    sound.clone()
}

/// `sound` with the three levels written into the settings it carries, and
/// everything else as it was.
pub uninterp spec fn with_levels(
    sound: StaticSoundData,
    volume: Volume,
    playback_rate: PlaybackRate,
    panning: PanningControlBuilder,
) -> StaticSoundData;

/// Writes the three levels into the settings that the sound carries: the
/// sound is then `with_levels` of what it was. The levels are none of what
/// its start depends on.
#[verifier::external_body]
pub(crate) fn sound_set_levels(
    sound: &mut StaticSoundData,
    volume: Volume,
    playback_rate: PlaybackRate,
    panning: PanningControlBuilder,
)
    ensures
        *final(sound) == with_levels(*old(sound), volume, playback_rate, panning),
        facts_of(*final(sound)) == facts_of(*old(sound)),
{
    sound.settings.volume = volume;
    sound.settings.playback_rate = playback_rate;
    sound.settings.panning = panning.0;
}

/// `sound` with a loop over its whole length written into the settings it
/// carries, and everything else as it was.
pub uninterp spec fn whole_loop(sound: StaticSoundData) -> StaticSoundData;

/// Makes the sound loop over its whole length: when it ends it goes on at
/// its start. The start is position zero, written as the default of the
/// number that kira counts positions in, whose bits are all zero. The sound
/// is then `whole_loop` of what it was, and of what its start depends on
/// only the loop has changed.
#[verifier::external_body]
pub(crate) fn sound_loop_from_start(sound: &mut StaticSoundData)
    ensures
        *final(sound) == whole_loop(*old(sound)),
        facts_of(*final(sound)) == facts_of(*old(sound)).looped_whole(),
{
    sound.settings.loop_behavior = Some(LoopBehavior { start_position: Default::default() });
}

/// The levels of `StaticSoundSettings::new`: kira's volume, playback rate and
/// panning for a sound on which nobody has set any. Nothing is claimed of
/// their values.
#[verifier::external_body]
pub(crate) fn default_levels() -> (levels: (Volume, PlaybackRate, PanningControlBuilder)) {
    let settings = StaticSoundSettings::new();
    (settings.volume, settings.playback_rate, PanningControlBuilder(settings.panning))
}

} // verus!
