use audio_channels::audio_output::AudioOutput;
use audio_channels::backend::Delivery;
use audio_channels::backend::Manager;
use audio_channels::backend::SoundState;
use audio_channels::channel::AudioControl;
use audio_channels::channel::Channel;
use audio_channels::channel::DynamicAudioChannel;
use audio_channels::channel::DynamicAudioChannels;
use audio_channels::command::AudioCommand;
use audio_channels::command::AudioCommandResult;
use audio_channels::command::PlayAudioSettings;
use audio_channels::command::SourceId;
use audio_channels::instance::HandleMint;
use audio_channels::instance::PlaybackState;
use audio_channels::settings::ChannelState;
use audio_channels::settings::Levels;
use audio_channels::sound::frame_bound;
use audio_channels::sound::SoundFacts;
use audio_channels::audio_output::pair_states;
use audio_channels::sources::AudioSources;
use kira::dsp::Frame;
use kira::manager::AudioManager;
use kira::manager::AudioManagerSettings;
use kira::manager::Capacities;
use kira::sound::static_sound::StaticSoundData;
use kira::sound::static_sound::StaticSoundSettings;
use kira::track::effect::panning_control::PanningControlBuilder;
use kira::LoopBehavior;
use kira::PlaybackRate;
use kira::Volume;
use std::any::TypeId;
use std::sync::Arc;

struct Music;

struct Effects;

const SOUND_A: SourceId = SourceId { id: 1 };

const SOUND_B: SourceId = SourceId { id: 2 };

fn music() -> Channel {
    Channel::Typed(TypeId::of::<Music>())
}

fn effects() -> Channel {
    Channel::Typed(TypeId::of::<Effects>())
}

fn manager() -> Manager {
    Manager { kira: AudioManager::new(AudioManagerSettings::default()).unwrap() }
}

fn output() -> AudioOutput {
    AudioOutput::new(Some(manager()))
}

/// A sound of `frames` seconds at the rate of the test backend, every
/// sample at full level.
fn sound(frames: usize) -> StaticSoundData {
    StaticSoundData {
        sample_rate: 1,
        frames: Arc::new(vec![Frame::from_mono(1.0); frames]),
        settings: StaticSoundSettings::new(),
    }
}

fn sources() -> AudioSources {
    let mut sources = AudioSources::new();
    assert!(sources.insert(SOUND_A, sound(64)));
    assert!(sources.insert(SOUND_B, sound(64)));
    sources
}

/// Lets the backend take what was sent to it and render one second.
fn render(output: &mut AudioOutput) -> Frame {
    let manager = output.manager_mut().unwrap();
    manager.kira.backend_mut().on_start_processing();
    manager.kira.backend_mut().process()
}

fn render_times(output: &mut AudioOutput, times: usize) -> Frame {
    let mut frame = Frame::ZERO;
    for _ in 0..times {
        frame = render(output);
    }
    frame
}

/// One tick as the program runs it, with the backend at work between the
/// commands and the look at the instances.
fn tick(
    output: &mut AudioOutput,
    sources: &AudioSources,
    key: &Channel,
    channel: &mut DynamicAudioChannel,
) -> Vec<AudioCommandResult> {
    let outcomes = output.play_channel(sources, key, channel);
    render(output);
    output.cleanup_stopped_instances();
    output.update_instance_states(key, channel);
    outcomes
}

fn near(value: f32, expected: f32) -> bool {
    (value - expected).abs() < 1e-4
}

#[test]
fn new_output_holds_nothing() {
    let output = output();
    assert!(output.is_enabled());
    assert!(output.instances(&music()).is_empty());
    assert!(output.settings(&music()).is_none());
    assert!(!AudioOutput::new(None).is_enabled());
}

#[test]
fn play_waits_for_its_sound_then_plays_then_stops() {
    let mut output = output();
    let mut ids = HandleMint::new();
    let mut channel = DynamicAudioChannel::default();
    let mut loaded = AudioSources::new();
    let handle = channel.play(&mut ids, SOUND_A);
    assert_eq!(channel.state(handle), PlaybackState::Queued);

    assert!(loaded.insert(SOUND_A, sound(64)));
    assert_eq!(tick(&mut output, &loaded, &music(), &mut channel), vec![AudioCommandResult::Done]);
    assert_eq!(channel.state(handle), PlaybackState::Playing);
    assert_eq!(output.instances(&music()), vec![handle]);

    channel.stop();
    assert_eq!(tick(&mut output, &loaded, &music(), &mut channel), vec![AudioCommandResult::Done]);
    assert_eq!(channel.state(handle), PlaybackState::Stopped);
    assert!(output.instances(&music()).is_empty());
}

#[test]
fn unloaded_play_is_queued_for_each_tick_it_waits() {
    let mut output = output();
    let mut ids = HandleMint::new();
    let mut channel = DynamicAudioChannel::default();
    let mut loaded = AudioSources::new();
    let handle = channel.play_looped(&mut ids, SOUND_A);
    for _ in 0..4 {
        assert_eq!(
            tick(&mut output, &loaded, &music(), &mut channel),
            vec![AudioCommandResult::Retry]
        );
        assert_eq!(channel.pending(), 1);
        assert_eq!(channel.state(handle), PlaybackState::Queued);
        assert!(output.instances(&music()).is_empty());
    }
    assert!(loaded.insert(SOUND_A, sound(4)));
    assert_eq!(tick(&mut output, &loaded, &music(), &mut channel), vec![AudioCommandResult::Done]);
    assert_eq!(channel.pending(), 0);
    assert_eq!(channel.state(handle), PlaybackState::Playing);
    assert_eq!(output.instances(&music()), vec![handle]);
}

#[test]
fn levels_after_a_tick_are_those_of_the_last_commands() {
    let mut output = output();
    let mut channel = DynamicAudioChannel::default();
    let loaded = sources();
    channel.set_volume(Volume::Amplitude(0.1));
    channel.set_panning(PanningControlBuilder(0.2));
    channel.set_volume(Volume::Decibels(-3.0));
    channel.set_playback_rate(PlaybackRate::Semitones(2.0));
    channel.set_playback_rate(PlaybackRate::Factor(1.5));
    channel.set_volume(Volume::Amplitude(0.7));
    let outcomes = output.play_channel(&loaded, &music(), &mut channel);
    assert_eq!(outcomes, vec![AudioCommandResult::Done; 6]);
    assert_eq!(channel.pending(), 0);
    let settings = output.settings(&music()).unwrap();
    assert_eq!(settings.volume, Some(Volume::Amplitude(0.7)));
    assert_eq!(settings.playback_rate, Some(PlaybackRate::Factor(1.5)));
    assert_eq!(settings.panning.map(|panning| panning.0), Some(0.2));
    assert!(output.settings(&effects()).is_none());
}

#[test]
fn a_level_that_was_never_set_stays_unset() {
    let mut output = output();
    let mut channel = DynamicAudioChannel::default();
    channel.set_panning(PanningControlBuilder(1.0));
    output.play_channel(&sources(), &music(), &mut channel);
    let settings = output.settings(&music()).unwrap();
    assert!(settings.volume.is_none());
    assert!(settings.playback_rate.is_none());
    assert_eq!(settings.panning.map(|panning| panning.0), Some(1.0));
}

#[test]
fn unset_levels_are_kiras_defaults() {
    let defaults = output().default_levels();
    assert_eq!(defaults.volume, Volume::Amplitude(1.0));
    assert_eq!(defaults.playback_rate, PlaybackRate::Factor(1.0));
    assert_eq!(defaults.panning.0, 0.5);
    let kira = Levels::of_kira();
    assert_eq!(kira.volume, Volume::Amplitude(1.0));
    assert_eq!(kira.playback_rate, PlaybackRate::Factor(1.0));
    assert_eq!(kira.panning.0, 0.5);
    let other = Levels {
        volume: Volume::Decibels(-6.0),
        playback_rate: PlaybackRate::Semitones(1.0),
        panning: PanningControlBuilder(0.25),
    };
    let unset = ChannelState::default().levels(other);
    assert_eq!(unset.volume, Volume::Decibels(-6.0));
    assert_eq!(unset.playback_rate, PlaybackRate::Semitones(1.0));
    assert_eq!(unset.panning.0, 0.25);
    let half = ChannelState { volume: None, playback_rate: Some(PlaybackRate::Factor(2.0)), panning: None };
    let mixed = half.levels(other);
    assert_eq!(mixed.volume, Volume::Decibels(-6.0));
    assert_eq!(mixed.playback_rate, PlaybackRate::Factor(2.0));
    assert_eq!(mixed.panning.0, 0.25);
    let set = ChannelState {
        volume: Some(Volume::Amplitude(0.3)),
        playback_rate: Some(PlaybackRate::Factor(0.5)),
        panning: Some(PanningControlBuilder(0.0)),
    };
    let levels = set.levels(other);
    assert_eq!(levels.volume, Volume::Amplitude(0.3));
    assert_eq!(levels.playback_rate, PlaybackRate::Factor(0.5));
    assert_eq!(levels.panning.0, 0.0);
}

#[test]
fn apply_overrides_the_levels_of_a_sound() {
    let mut quiet = sound(4);
    quiet.settings.volume = Volume::Amplitude(0.1);
    quiet.settings.panning = 0.9;
    let state = ChannelState {
        volume: Some(Volume::Amplitude(0.3)),
        playback_rate: None,
        panning: None,
    };
    state.apply(&mut quiet, Levels::of_kira());
    assert_eq!(quiet.settings.volume, Volume::Amplitude(0.3));
    assert_eq!(quiet.settings.playback_rate, PlaybackRate::Factor(1.0));
    assert_eq!(quiet.settings.panning, 0.5);
}

#[test]
fn retried_play_runs_before_what_is_submitted_later() {
    let mut output = output();
    let mut ids = HandleMint::new();
    let mut channel = DynamicAudioChannel::default();
    let mut loaded = AudioSources::new();
    assert!(loaded.insert(SOUND_B, sound(64)));

    channel.set_volume(Volume::Amplitude(0.1));
    let second = channel.play(&mut ids, SOUND_A);
    channel.set_panning(PanningControlBuilder(0.3));
    let fourth = channel.play(&mut ids, SOUND_B);
    channel.set_volume(Volume::Amplitude(0.9));
    assert_eq!(
        tick(&mut output, &loaded, &music(), &mut channel),
        vec![
            AudioCommandResult::Done,
            AudioCommandResult::Retry,
            AudioCommandResult::Done,
            AudioCommandResult::Done,
            AudioCommandResult::Done,
        ]
    );
    assert_eq!(channel.pending(), 1);
    assert_eq!(channel.state(second), PlaybackState::Queued);
    assert_eq!(channel.state(fourth), PlaybackState::Playing);
    assert_eq!(output.settings(&music()).unwrap().volume, Some(Volume::Amplitude(0.9)));

    let later = channel.play(&mut ids, SOUND_B);
    assert!(loaded.insert(SOUND_A, sound(64)));
    assert_eq!(
        tick(&mut output, &loaded, &music(), &mut channel),
        vec![AudioCommandResult::Done, AudioCommandResult::Done]
    );
    assert_eq!(channel.pending(), 0);
    assert_eq!(output.instances(&music()), vec![fourth, second, later]);
}

#[test]
fn retried_commands_keep_their_order() {
    let mut output = output();
    let mut ids = HandleMint::new();
    let mut channel = DynamicAudioChannel::default();
    let empty = AudioSources::new();
    let first = channel.play(&mut ids, SOUND_A);
    channel.pause();
    let second = channel.play(&mut ids, SOUND_B);
    let third = channel.play(&mut ids, SOUND_A);
    let outcomes = output.play_channel(&empty, &music(), &mut channel);
    assert_eq!(
        outcomes,
        vec![
            AudioCommandResult::Retry,
            AudioCommandResult::Done,
            AudioCommandResult::Retry,
            AudioCommandResult::Retry,
        ]
    );
    assert_eq!(channel.pending(), 3);
    let outcomes = output.play_channel(&sources(), &music(), &mut channel);
    assert_eq!(outcomes, vec![AudioCommandResult::Done; 3]);
    assert_eq!(output.instances(&music()), vec![first, second, third]);
}

#[test]
fn volume_reaches_the_playing_sound_and_the_next_one() {
    let mut output = output();
    let mut ids = HandleMint::new();
    let mut channel = DynamicAudioChannel::default();
    let loaded = sources();
    channel.play_looped(&mut ids, SOUND_A);
    output.play_channel(&loaded, &music(), &mut channel);
    let full = render_times(&mut output, 4);
    assert!(near(full.left, 1.0) && near(full.right, 1.0));

    channel.set_volume(Volume::Amplitude(0.5));
    output.play_channel(&loaded, &music(), &mut channel);
    let half = render_times(&mut output, 6);
    assert!(near(half.left, 0.5) && near(half.right, 0.5));

    channel.play_looped(&mut ids, SOUND_B);
    output.play_channel(&loaded, &music(), &mut channel);
    let both = render_times(&mut output, 2);
    assert!(near(both.left, 1.0) && near(both.right, 1.0));
    assert_eq!(output.settings(&music()).unwrap().volume, Some(Volume::Amplitude(0.5)));
}

#[test]
fn panning_reaches_the_playing_sound_and_the_next_one() {
    let mut output = output();
    let mut ids = HandleMint::new();
    let mut channel = DynamicAudioChannel::default();
    let loaded = sources();
    channel.play_looped(&mut ids, SOUND_A);
    output.play_channel(&loaded, &music(), &mut channel);
    render_times(&mut output, 2);
    channel.set_panning(PanningControlBuilder(0.0));
    output.play_channel(&loaded, &music(), &mut channel);
    let left = render_times(&mut output, 6);
    assert!(near(left.right, 0.0));
    assert!(near(left.left, 2.0_f32.sqrt()));
    channel.play_looped(&mut ids, SOUND_B);
    output.play_channel(&loaded, &music(), &mut channel);
    let both = render_times(&mut output, 2);
    assert!(near(both.right, 0.0));
    assert!(near(both.left, 2.0 * 2.0_f32.sqrt()));
}

#[test]
fn playback_rate_reaches_the_playing_sound_and_the_next_one() {
    let mut output = output();
    let mut ids = HandleMint::new();
    let mut channel = DynamicAudioChannel::default();
    let mut loaded = AudioSources::new();
    assert!(loaded.insert(SOUND_A, sound(12)));
    channel.set_playback_rate(PlaybackRate::Factor(4.0));
    let fast = channel.play(&mut ids, SOUND_A);
    tick(&mut output, &loaded, &music(), &mut channel);
    assert_eq!(channel.state(fast), PlaybackState::Playing);
    render_times(&mut output, 3);
    output.cleanup_stopped_instances();
    assert!(output.instances(&music()).is_empty());

    let mut other = DynamicAudioChannel::default();
    let slow = other.play(&mut ids, SOUND_A);
    tick(&mut output, &loaded, &effects(), &mut other);
    render_times(&mut output, 3);
    output.cleanup_stopped_instances();
    assert_eq!(output.instances(&effects()), vec![slow]);
    other.set_playback_rate(PlaybackRate::Factor(4.0));
    tick(&mut output, &loaded, &effects(), &mut other);
    render_times(&mut output, 3);
    output.cleanup_stopped_instances();
    assert!(output.instances(&effects()).is_empty());
}

#[test]
fn looped_play_goes_on_past_the_end_of_its_sound() {
    let mut output = output();
    let mut ids = HandleMint::new();
    let mut channel = DynamicAudioChannel::default();
    let mut loaded = AudioSources::new();
    assert!(loaded.insert(SOUND_A, sound(4)));
    let once = channel.play(&mut ids, SOUND_A);
    let looped = channel.play_looped(&mut ids, SOUND_A);
    output.play_channel(&loaded, &music(), &mut channel);
    render_times(&mut output, 12);
    output.cleanup_stopped_instances();
    output.update_instance_states(&music(), &mut channel);
    assert_eq!(output.instances(&music()), vec![looped]);
    assert_eq!(channel.state(once), PlaybackState::Stopped);
    assert_eq!(channel.state(looped), PlaybackState::Playing);
}

#[test]
fn looped_play_keeps_the_loop_that_the_sound_brings() {
    let mut output = output();
    let mut ids = HandleMint::new();
    let mut channel = DynamicAudioChannel::default();
    let mut loaded = AudioSources::new();
    let mut ramp = sound(4);
    ramp.frames = Arc::new(vec![
        Frame::from_mono(0.0),
        Frame::from_mono(0.0),
        Frame::from_mono(1.0),
        Frame::from_mono(1.0),
    ]);
    ramp.settings.loop_behavior = Some(LoopBehavior { start_position: 2.0 });
    assert!(loaded.insert(SOUND_A, ramp));
    channel.play_looped(&mut ids, SOUND_A);
    output.play_channel(&loaded, &music(), &mut channel);
    render_times(&mut output, 8);
    for _ in 0..6 {
        assert!(near(render(&mut output).left, 1.0));
    }
}

#[test]
fn pause_holds_a_playing_sound_and_resume_lets_it_go_on() {
    let mut output = output();
    let mut ids = HandleMint::new();
    let mut channel = DynamicAudioChannel::default();
    let loaded = sources();
    let handle = channel.play_looped(&mut ids, SOUND_A);
    tick(&mut output, &loaded, &music(), &mut channel);
    channel.pause();
    assert_eq!(tick(&mut output, &loaded, &music(), &mut channel), vec![AudioCommandResult::Done]);
    assert_eq!(channel.state(handle), PlaybackState::Paused);
    assert!(near(render_times(&mut output, 4).left, 0.0));

    channel.pause();
    tick(&mut output, &loaded, &music(), &mut channel);
    assert_eq!(channel.state(handle), PlaybackState::Paused);

    channel.resume();
    assert_eq!(tick(&mut output, &loaded, &music(), &mut channel), vec![AudioCommandResult::Done]);
    assert_eq!(channel.state(handle), PlaybackState::Playing);
    assert!(near(render_times(&mut output, 4).left, 1.0));
    assert_eq!(output.instances(&music()), vec![handle]);
}

#[test]
fn resume_leaves_a_playing_sound_alone() {
    let mut output = output();
    let mut ids = HandleMint::new();
    let mut channel = DynamicAudioChannel::default();
    let loaded = sources();
    let handle = channel.play_looped(&mut ids, SOUND_A);
    tick(&mut output, &loaded, &music(), &mut channel);
    channel.resume();
    tick(&mut output, &loaded, &music(), &mut channel);
    assert_eq!(channel.state(handle), PlaybackState::Playing);
    assert!(near(render_times(&mut output, 3).left, 1.0));
}

#[test]
fn stop_is_tried_again_while_the_sound_takes_no_more_requests() {
    let mut output = output();
    let mut ids = HandleMint::new();
    let mut channel = DynamicAudioChannel::default();
    let loaded = sources();
    let handle = channel.play_looped(&mut ids, SOUND_A);
    tick(&mut output, &loaded, &music(), &mut channel);
    for _ in 0..9 {
        channel.stop();
    }
    let outcomes = output.play_channel(&loaded, &music(), &mut channel);
    let mut expected = vec![AudioCommandResult::Done; 8];
    expected.push(AudioCommandResult::Retry);
    assert_eq!(outcomes, expected);
    assert_eq!(channel.pending(), 1);
    assert!(matches!(channel.take_oldest(), Some(AudioCommand::Stop)));
    channel.stop();
    render(&mut output);
    assert_eq!(
        output.play_channel(&loaded, &music(), &mut channel),
        vec![AudioCommandResult::Done]
    );
    output.cleanup_stopped_instances();
    output.update_instance_states(&music(), &mut channel);
    assert_eq!(channel.state(handle), PlaybackState::Stopped);
}

#[test]
fn stop_on_a_silent_channel_is_done() {
    let mut output = output();
    let mut channel = DynamicAudioChannel::default();
    channel.stop();
    assert_eq!(
        output.play_channel(&sources(), &music(), &mut channel),
        vec![AudioCommandResult::Done]
    );
}

#[test]
fn play_fails_where_kira_takes_no_more_sounds() {
    let settings = AudioManagerSettings {
        capacities: Capacities { sound_capacity: 1, ..Capacities::default() },
        ..AudioManagerSettings::default()
    };
    let mut output = AudioOutput::new(Some(Manager { kira: AudioManager::new(settings).unwrap() }));
    let mut ids = HandleMint::new();
    let mut channel = DynamicAudioChannel::default();
    let first = channel.play(&mut ids, SOUND_A);
    let second = channel.play(&mut ids, SOUND_B);
    assert_eq!(
        tick(&mut output, &sources(), &music(), &mut channel),
        vec![AudioCommandResult::Done, AudioCommandResult::Failed]
    );
    assert_eq!(channel.pending(), 0);
    assert_eq!(output.instances(&music()), vec![first]);
    assert_eq!(channel.state(first), PlaybackState::Playing);
    assert_eq!(channel.state(second), PlaybackState::Stopped);
}

#[test]
fn without_a_manager_every_command_is_dropped() {
    let mut output = AudioOutput::new(None);
    let mut ids = HandleMint::new();
    let mut channel = DynamicAudioChannel::default();
    let handle = channel.play(&mut ids, SOUND_A);
    channel.set_volume(Volume::Amplitude(0.5));
    channel.stop();
    channel.pause();
    assert!(output.manager_mut().is_none());
    let outcomes = output.play_channel(&sources(), &music(), &mut channel);
    assert_eq!(outcomes, vec![AudioCommandResult::Failed; 4]);
    assert_eq!(channel.pending(), 0);
    output.cleanup_stopped_instances();
    output.update_instance_states(&music(), &mut channel);
    assert_eq!(channel.state(handle), PlaybackState::Stopped);
    assert!(output.settings(&music()).is_none());
    assert!(output.instances(&music()).is_empty());
}

#[test]
fn run_audio_command_tells_how_one_command_ended() {
    let mut output = output();
    let mut ids = HandleMint::new();
    let mut scratch = DynamicAudioChannel::default();
    let handle = scratch.play(&mut ids, SOUND_A);
    let play = scratch.take_oldest().unwrap();
    let empty = AudioSources::new();
    assert_eq!(output.run_audio_command(&play, &empty, &music()), AudioCommandResult::Retry);
    assert!(output.instances(&music()).is_empty());
    assert_eq!(output.run_audio_command(&play, &sources(), &music()), AudioCommandResult::Done);
    assert_eq!(output.instances(&music()), vec![handle]);
    assert_eq!(
        output.run_audio_command(&AudioCommand::Stop, &empty, &music()),
        AudioCommandResult::Done
    );
    assert_eq!(
        output.run_audio_command(&AudioCommand::SetVolume(Volume::Amplitude(2.0)), &empty, &music()),
        AudioCommandResult::Done
    );
    assert_eq!(output.settings(&music()).unwrap().volume, Some(Volume::Amplitude(2.0)));
    let mut disabled = AudioOutput::new(None);
    assert_eq!(
        disabled.run_audio_command(&AudioCommand::Pause, &empty, &music()),
        AudioCommandResult::Failed
    );
}

#[test]
fn channels_of_different_types_are_kept_apart() {
    let mut output = output();
    let mut ids = HandleMint::new();
    let mut music_channel = DynamicAudioChannel::default();
    let mut effects_channel = DynamicAudioChannel::default();
    let loaded = sources();
    let song = music_channel.play_looped(&mut ids, SOUND_A);
    music_channel.set_volume(Volume::Amplitude(0.5));
    let shot = effects_channel.play_looped(&mut ids, SOUND_B);
    tick(&mut output, &loaded, &music(), &mut music_channel);
    tick(&mut output, &loaded, &effects(), &mut effects_channel);
    assert_eq!(output.instances(&music()), vec![song]);
    assert_eq!(output.instances(&effects()), vec![shot]);
    assert!(output.settings(&effects()).is_none());
    assert_eq!(music_channel.state(shot), PlaybackState::Stopped);
    assert_eq!(effects_channel.state(song), PlaybackState::Stopped);

    effects_channel.stop();
    tick(&mut output, &loaded, &effects(), &mut effects_channel);
    output.update_instance_states(&music(), &mut music_channel);
    assert_eq!(music_channel.state(song), PlaybackState::Playing);
    assert_eq!(effects_channel.state(shot), PlaybackState::Stopped);
    assert_eq!(output.instances(&music()), vec![song]);
}

#[test]
fn typed_and_named_channels_do_not_meet() {
    let mut output = output();
    let mut channel = DynamicAudioChannel::default();
    channel.set_volume(Volume::Amplitude(0.5));
    output.play_channel(&sources(), &Channel::Dynamic("music".to_string()), &mut channel);
    assert!(output.settings(&music()).is_none());
    assert!(output.settings(&Channel::Dynamic("Music".to_string())).is_none());
    assert_eq!(
        output.settings(&Channel::Dynamic("music".to_string())).unwrap().volume,
        Some(Volume::Amplitude(0.5))
    );
}

#[test]
fn every_named_channel_is_drained_in_registry_order() {
    let mut output = output();
    let mut ids = HandleMint::new();
    let mut registry = DynamicAudioChannels::default();
    let mut loaded = AudioSources::new();
    assert!(loaded.insert(SOUND_A, sound(64)));
    let song = registry.create_channel("music").play(&mut ids, SOUND_A);
    registry.channel_mut("music").set_volume(Volume::Amplitude(0.4));
    let shot = registry.create_channel("effects").play(&mut ids, SOUND_B);
    registry.create_channel("voice");
    let report = output.play_dynamic_channels(&loaded, &mut registry);
    assert_eq!(
        report,
        vec![
            vec![AudioCommandResult::Done, AudioCommandResult::Done],
            vec![AudioCommandResult::Retry],
            vec![],
        ]
    );
    assert_eq!(registry.len(), 3);
    assert_eq!(registry.channel("music").pending(), 0);
    assert_eq!(registry.channel("effects").pending(), 1);
    assert_eq!(registry.channel("effects").state(shot), PlaybackState::Queued);
    assert_eq!(output.instances(&Channel::Dynamic("music".to_string())), vec![song]);
    assert!(output.instances(&Channel::Dynamic("effects".to_string())).is_empty());
    assert_eq!(
        output.settings(&Channel::Dynamic("music".to_string())).unwrap().volume,
        Some(Volume::Amplitude(0.4))
    );
    output.update_instance_states(
        &Channel::Dynamic("music".to_string()),
        registry.channel_mut("music"),
    );
    assert_eq!(registry.channel("music").state(song), PlaybackState::Playing);
}

#[test]
fn recreated_channel_never_runs_what_the_old_one_held() {
    let mut output = output();
    let mut ids = HandleMint::new();
    let mut registry = DynamicAudioChannels::default();
    let handle = registry.create_channel("music").play(&mut ids, SOUND_A);
    registry.create_channel("music");
    let report = output.play_dynamic_channels(&sources(), &mut registry);
    assert_eq!(report, vec![Vec::<AudioCommandResult>::new()]);
    assert!(output.instances(&Channel::Dynamic("music".to_string())).is_empty());
    assert_eq!(registry.channel("music").state(handle), PlaybackState::Stopped);
}

#[test]
fn removed_channel_leaves_its_sounds_to_play_out() {
    let mut output = output();
    let mut ids = HandleMint::new();
    let mut registry = DynamicAudioChannels::default();
    let handle = registry.create_channel("music").play(&mut ids, SOUND_A);
    output.play_dynamic_channels(&sources(), &mut registry);
    registry.remove_channel("music");
    assert!(!registry.contains_channel("music"));
    let report = output.play_dynamic_channels(&sources(), &mut registry);
    assert!(report.is_empty());
    render(&mut output);
    output.cleanup_stopped_instances();
    assert_eq!(output.instances(&Channel::Dynamic("music".to_string())), vec![handle]);
}

#[test]
fn cleanup_forgets_only_what_has_stopped() {
    let mut output = output();
    let mut ids = HandleMint::new();
    let mut channel = DynamicAudioChannel::default();
    let mut loaded = AudioSources::new();
    assert!(loaded.insert(SOUND_A, sound(5)));
    assert!(loaded.insert(SOUND_B, sound(64)));
    let long_first = channel.play(&mut ids, SOUND_B);
    let short = channel.play(&mut ids, SOUND_A);
    let long_last = channel.play(&mut ids, SOUND_B);
    channel.set_volume(Volume::Amplitude(0.5));
    output.play_channel(&loaded, &music(), &mut channel);
    output.cleanup_stopped_instances();
    assert_eq!(output.instances(&music()), vec![long_first, short, long_last]);
    render_times(&mut output, 6);
    output.cleanup_stopped_instances();
    assert_eq!(output.instances(&music()), vec![long_first, long_last]);
    assert_eq!(output.settings(&music()).unwrap().volume, Some(Volume::Amplitude(0.5)));
    let states = output.instance_states(&music());
    assert_eq!(
        states,
        vec![(long_first, PlaybackState::Playing), (long_last, PlaybackState::Playing)]
    );
}

#[test]
fn a_fade_counts_as_the_state_it_leads_to() {
    assert_eq!(SoundState::Playing.published(), PlaybackState::Playing);
    assert_eq!(SoundState::Pausing.published(), PlaybackState::Paused);
    assert_eq!(SoundState::Paused.published(), PlaybackState::Paused);
    assert_eq!(SoundState::Stopping.published(), PlaybackState::Stopped);
    assert_eq!(SoundState::Stopped.published(), PlaybackState::Stopped);
    assert!(SoundState::Playing.is_playing() && !SoundState::Pausing.is_playing());
    assert!(SoundState::Paused.is_paused() && !SoundState::Pausing.is_paused());
    assert!(SoundState::Stopped.is_stopped() && !SoundState::Stopping.is_stopped());
}

#[test]
fn sources_hold_what_was_put_in() {
    let mut loaded = AudioSources::new();
    assert!(!loaded.contains(SOUND_A));
    assert!(loaded.get(SOUND_A).is_none());
    assert!(loaded.insert(SOUND_A, sound(3)));
    assert!(loaded.insert(SOUND_A, sound(5)));
    assert!(loaded.contains(SOUND_A));
    assert!(!loaded.contains(SOUND_B));
    assert_eq!(loaded.get(SOUND_A).unwrap().frames.len(), 5);
    loaded.remove(SOUND_A);
    assert!(!loaded.contains(SOUND_A));
}

fn once() -> PlayAudioSettings {
    PlayAudioSettings { source: SOUND_A, intro_source: None, looped: false }
}

fn looped() -> PlayAudioSettings {
    PlayAudioSettings { source: SOUND_A, intro_source: None, looped: true }
}

#[test]
fn prepare_gives_the_sound_the_levels_of_the_channel() {
    let mut output = output();
    let mut channel = DynamicAudioChannel::default();
    channel.set_volume(Volume::Amplitude(0.25));
    channel.set_panning(PanningControlBuilder(0.75));
    output.play_channel(&sources(), &music(), &mut channel);
    let mut source = sound(8);
    source.settings.volume = Volume::Amplitude(0.9);
    source.settings.playback_rate = PlaybackRate::Factor(3.0);
    source.settings.panning = 0.1;
    source.settings.reverse = true;
    let prepared = output.prepare(&music(), &once(), &source);
    assert_eq!(prepared.settings.volume, Volume::Amplitude(0.25));
    assert_eq!(prepared.settings.playback_rate, PlaybackRate::Factor(1.0));
    assert_eq!(prepared.settings.panning, 0.75);
    assert!(prepared.settings.reverse);
    assert!(prepared.settings.loop_behavior.is_none());
    assert_eq!(prepared.sample_rate, source.sample_rate);
    assert!(Arc::ptr_eq(&prepared.frames, &source.frames));
    assert_eq!(source.settings.volume, Volume::Amplitude(0.9));
}

#[test]
fn prepare_leaves_the_sound_as_it_is_where_no_level_was_set() {
    let output = output();
    let mut source = sound(8);
    source.settings.volume = Volume::Amplitude(0.9);
    source.settings.playback_rate = PlaybackRate::Factor(3.0);
    source.settings.panning = 0.1;
    let prepared = output.prepare(&music(), &once(), &source);
    assert_eq!(prepared.settings, source.settings);
    assert_eq!(prepared.sample_rate, 1);
    assert!(Arc::ptr_eq(&prepared.frames, &source.frames));
}

#[test]
fn prepare_adds_a_loop_where_one_is_asked_for_and_none_is_brought() {
    let output = output();
    let source = sound(8);
    let prepared = output.prepare(&music(), &looped(), &source);
    assert_eq!(prepared.settings.loop_behavior, Some(LoopBehavior { start_position: 0.0 }));
    assert_eq!(prepared.settings.volume, source.settings.volume);
    assert!(source.settings.loop_behavior.is_none());

    let mut brought = sound(8);
    brought.settings.loop_behavior = Some(LoopBehavior { start_position: 2.0 });
    let kept = output.prepare(&music(), &looped(), &brought);
    assert_eq!(kept.settings.loop_behavior, Some(LoopBehavior { start_position: 2.0 }));
    let also_kept = output.prepare(&music(), &once(), &brought);
    assert_eq!(also_kept.settings.loop_behavior, Some(LoopBehavior { start_position: 2.0 }));
}

#[test]
fn only_a_full_buffer_puts_a_request_off() {
    assert!(Delivery::QueueFull.puts_off());
    assert!(!Delivery::Sent.puts_off());
    assert!(!Delivery::Refused.puts_off());
}

fn facts(frames: usize, start: f64, loop_start: Option<f64>) -> SoundFacts {
    SoundFacts {
        frames,
        sample_rate: 1,
        reverse: false,
        start_position: start.to_bits(),
        loop_start: loop_start.map(f64::to_bits),
    }
}

#[test]
fn frame_bound_is_the_product_rounded_up() {
    assert_eq!(frame_bound(0.0_f64.to_bits(), 44100), Some(0));
    assert_eq!(frame_bound(2.0_f64.to_bits(), 1), Some(2));
    assert_eq!(frame_bound(0.5_f64.to_bits(), 44100), Some(22050));
    assert_eq!(frame_bound(1.5_f64.to_bits(), 3), Some(5));
    assert_eq!(frame_bound(2.25_f64.to_bits(), 2), Some(5));
    assert_eq!(frame_bound((1.0_f64 / 3.0).to_bits(), 3), Some(1));
    assert_eq!(frame_bound(0.1_f64.to_bits(), 10), Some(2));
    assert_eq!(frame_bound(1.0_f64.to_bits(), u32::MAX), Some(u32::MAX as u64));
    assert_eq!(frame_bound(4503599627370496.0_f64.to_bits(), 1), Some(4503599627370496));
    assert_eq!(frame_bound(f64::MIN_POSITIVE.to_bits(), 1), Some(1));
    assert_eq!(frame_bound(5e-324_f64.to_bits(), 1), Some(1));
}

#[test]
fn frame_bound_is_zero_for_what_kira_cuts_down_to_zero() {
    assert_eq!(frame_bound((-0.0_f64).to_bits(), 44100), Some(0));
    assert_eq!(frame_bound((-3.5_f64).to_bits(), 44100), Some(0));
    assert_eq!(frame_bound(f64::NEG_INFINITY.to_bits(), 44100), Some(0));
    assert_eq!(frame_bound(7.0_f64.to_bits(), 0), Some(0));
    assert_eq!(frame_bound(f64::INFINITY.to_bits(), 0), Some(0));
    assert_eq!(frame_bound(f64::NAN.to_bits(), 0), Some(0));
}

#[test]
fn frame_bound_is_unknown_for_what_is_too_large() {
    assert_eq!(frame_bound(f64::INFINITY.to_bits(), 1), None);
    assert_eq!(frame_bound(f64::NAN.to_bits(), 1), None);
    assert_eq!(frame_bound(1e300_f64.to_bits(), 1), None);
    assert_eq!(frame_bound(9007199254740992.0_f64.to_bits(), 1), None);
    assert_eq!(frame_bound(4503599627370496.0_f64.to_bits(), 2), None);
    assert_eq!(frame_bound(1e10_f64.to_bits(), u32::MAX), None);
}

#[test]
fn frame_bound_is_never_below_the_frame_that_kira_finds() {
    let positions = [0.0, 0.1, 0.3, 0.7, 1.0 / 3.0, 2.0 / 3.0, 0.999999999, 1.0, 1.1, 2.5, 1e-9, 123.456, 1e6];
    let rates = [0_u32, 1, 3, 7, 8000, 44100, 48000, 192000, u32::MAX];
    for position in positions {
        for rate in rates {
            let found = (position * rate as f64) as usize as u64;
            let bound = frame_bound(f64::to_bits(position), rate).unwrap();
            assert!(found <= bound && bound <= found + 1, "{} at {}", position, rate);
        }
    }
}

#[test]
fn startable_sounds_start_and_loop_at_one_of_their_frames() {
    assert!(facts(1, 0.0, None).startable());
    assert!(facts(4, 3.0, None).startable());
    assert!(facts(4, 0.0, Some(3.0)).startable());
    assert!(facts(4, -1.0, Some(-1.0)).startable());
    assert!(!facts(0, 0.0, None).startable());
    assert!(!facts(4, 4.0, None).startable());
    assert!(!facts(4, 3.5, None).startable());
    assert!(!facts(4, 0.0, Some(4.0)).startable());
    assert!(!facts(4, f64::INFINITY, None).startable());
    assert!(!SoundFacts { reverse: true, ..facts(4, 0.0, None) }.startable());
    assert!(SoundFacts { sample_rate: 0, ..facts(4, 9.0, Some(9.0)) }.startable());
}

#[test]
fn sources_turn_away_what_kira_cannot_start() {
    let mut loaded = AudioSources::new();
    assert!(!loaded.insert(SOUND_A, sound(0)));
    assert!(!loaded.contains(SOUND_A));
    let mut reversed = sound(8);
    reversed.settings.reverse = true;
    assert!(!loaded.insert(SOUND_A, reversed));
    let mut late = sound(8);
    late.settings.start_position = 8.0;
    assert!(!loaded.insert(SOUND_A, late));
    let mut far_loop = sound(8);
    far_loop.settings.loop_behavior = Some(LoopBehavior { start_position: 100.0 });
    assert!(!loaded.insert(SOUND_A, far_loop));
    assert!(!loaded.contains(SOUND_A));

    assert!(loaded.insert(SOUND_A, sound(8)));
    assert!(!loaded.insert(SOUND_A, sound(0)));
    assert_eq!(loaded.get(SOUND_A).unwrap().frames.len(), 8);
}

#[test]
fn sounds_at_the_edge_of_what_is_taken_play() {
    let mut output = output();
    let mut ids = HandleMint::new();
    let mut channel = DynamicAudioChannel::default();
    let mut loaded = AudioSources::new();
    assert!(loaded.insert(SourceId { id: 10 }, sound(1)));
    let mut last_frame = sound(4);
    last_frame.settings.start_position = 3.0;
    last_frame.settings.loop_behavior = Some(LoopBehavior { start_position: 3.0 });
    assert!(loaded.insert(SourceId { id: 11 }, last_frame));
    let mut still = sound(4);
    still.sample_rate = 0;
    still.settings.start_position = 9.0;
    assert!(loaded.insert(SourceId { id: 12 }, still));
    let mut before_start = sound(2);
    before_start.settings.start_position = -5.0;
    assert!(loaded.insert(SourceId { id: 13 }, before_start));
    for id in 10..14 {
        channel.play(&mut ids, SourceId { id });
        channel.play_looped(&mut ids, SourceId { id });
    }
    let outcomes = output.play_channel(&loaded, &music(), &mut channel);
    assert_eq!(outcomes, vec![AudioCommandResult::Done; 8]);
    render_times(&mut output, 12);
    output.cleanup_stopped_instances();
    assert!(!output.instances(&music()).is_empty());
}

#[test]
fn forget_stopped_keeps_what_the_states_say_goes_on() {
    let mut output = output();
    let mut ids = HandleMint::new();
    let mut channel = DynamicAudioChannel::default();
    let first = channel.play(&mut ids, SOUND_A);
    let second = channel.play(&mut ids, SOUND_A);
    let third = channel.play(&mut ids, SOUND_B);
    let fourth = channel.play(&mut ids, SOUND_B);
    channel.set_volume(Volume::Amplitude(0.5));
    output.play_channel(&sources(), &music(), &mut channel);
    assert_eq!(output.reports(&music()), vec![SoundState::Playing; 4]);
    assert!(output.reports(&effects()).is_empty());

    output.forget_stopped(
        &music(),
        &vec![SoundState::Stopped, SoundState::Stopping, SoundState::Stopped, SoundState::Paused],
    );
    assert_eq!(output.instances(&music()), vec![second, fourth]);
    assert_eq!(output.settings(&music()).unwrap().volume, Some(Volume::Amplitude(0.5)));
    output.forget_stopped(&music(), &vec![SoundState::Playing, SoundState::Pausing]);
    assert_eq!(output.instances(&music()), vec![second, fourth]);
    output.forget_stopped(&music(), &vec![SoundState::Stopped, SoundState::Stopped]);
    assert!(output.instances(&music()).is_empty());
    output.forget_stopped(&music(), &Vec::new());
    output.forget_stopped(&effects(), &Vec::new());
    assert!(output.instances(&effects()).is_empty());
    assert!(first != third);
}

#[test]
fn pair_states_tells_of_each_handle_what_was_reported() {
    let mut ids = HandleMint::new();
    let handles = vec![ids.mint(), ids.mint(), ids.mint()];
    let paired = pair_states(
        &handles,
        &vec![SoundState::Pausing, SoundState::Playing, SoundState::Stopping],
    );
    assert_eq!(
        paired,
        vec![
            (handles[0], PlaybackState::Paused),
            (handles[1], PlaybackState::Playing),
            (handles[2], PlaybackState::Stopped),
        ]
    );
    assert!(pair_states(&Vec::new(), &Vec::new()).is_empty());
}
