//! The audio output: it owns kira's manager and the sounds that play, runs
//! the commands that the channels queued, forgets the sounds that have
//! stopped and tells each channel the state of its sounds.

use vstd::prelude::*;
use kira::sound::static_sound::StaticSoundData;
use kira::sound::static_sound::StaticSoundHandle;
use kira::track::effect::panning_control::PanningControlBuilder;
use kira::PlaybackRate;
use kira::Volume;
use crate::backend::clone_sound;
use crate::backend::handle_pause;
use crate::backend::handle_resume;
use crate::backend::handle_set_panning;
use crate::backend::handle_set_playback_rate;
use crate::backend::handle_set_volume;
use crate::backend::handle_state;
use crate::backend::handle_stop;
use crate::backend::facts_of;
use crate::backend::sound_facts;
use crate::backend::sound_loop_from_start;
use crate::backend::start_sound;
use crate::backend::whole_loop;
use crate::backend::Manager;
use crate::backend::SoundState;
use crate::channel::AudioControl;
use crate::channel::Channel;
use crate::channel::ChannelKey;
use crate::channel::DynamicAudioChannel;
use crate::channel::published;
use crate::channel::DynamicAudioChannels;
use crate::command::AudioCommand;
use crate::command::AudioCommandResult;
use crate::command::PlayAudioSettings;
use crate::instance::InstanceHandle;
use crate::instance::PlaybackState;
use crate::queue::execution_order;
use crate::queue::lemma_drain_end;
use crate::queue::lemma_drain_start;
use crate::queue::lemma_drain_step;
use crate::queue::mid_drain;
use crate::queue::retained;
use crate::settings::panning_set;
use crate::settings::playback_rate_set;
use crate::settings::volume_set;
use crate::settings::leveled;
use crate::settings::ChannelState;
use crate::settings::Levels;
use crate::sound::SoundFacts;
use crate::sources::AudioSources;

verus! {

/// What the audio output holds for one channel: the instances that play on
/// it, oldest first, and the levels that were set on it, if any were.
pub struct ChannelView {
    pub instances: Seq<InstanceHandle>,
    pub settings: Option<ChannelState>,
}

impl ChannelView {
    /// A channel on which nothing plays and nothing was set.
    pub open spec fn silent() -> ChannelView {
        ChannelView { instances: Seq::empty(), settings: None }
    }
}

/// What one attempt on `command` that ended with `outcome` does to a
/// channel. Only an attempt that is done changes anything: a play adds its
/// instance, and a level is written down.
pub open spec fn effect(
    before: ChannelView,
    command: AudioCommand,
    outcome: AudioCommandResult,
) -> ChannelView {
    if outcome != AudioCommandResult::Done {
        before
    } else {
        match command {
            AudioCommand::Play(args) => ChannelView {
                instances: before.instances.push(args.instance_handle),
                ..before
            },
            AudioCommand::SetVolume(volume) => ChannelView {
                settings: Some(volume_set(before.settings, volume)),
                ..before
            },
            AudioCommand::SetPanning(panning) => ChannelView {
                settings: Some(panning_set(before.settings, panning)),
                ..before
            },
            AudioCommand::SetPlaybackRate(playback_rate) => ChannelView {
                settings: Some(playback_rate_set(before.settings, playback_rate)),
                ..before
            },
            AudioCommand::Stop | AudioCommand::Pause | AudioCommand::Resume => before,
        }
    }
}

/// The outcomes that an attempt on `command` can have. Without a manager
/// every command fails. With one, a play is put off exactly while its sound
/// is not loaded; a stop never fails, and is done at once where nothing
/// plays; every other command is done.
pub open spec fn possible(
    enabled: bool,
    before: ChannelView,
    loaded: Set<u64>,
    command: AudioCommand,
    outcome: AudioCommandResult,
) -> bool {
    if !enabled {
        outcome == AudioCommandResult::Failed
    } else {
        match command {
            AudioCommand::Play(args) => if loaded.contains(args.settings.source.id) {
                outcome != AudioCommandResult::Retry
            } else {
                outcome == AudioCommandResult::Retry
            },
            AudioCommand::Stop => outcome != AudioCommandResult::Failed && (before.instances.len()
                == 0 ==> outcome == AudioCommandResult::Done),
            _ => outcome == AudioCommandResult::Done,
        }
    }
}

/// The channel after the attempts on `commands`, first to last, have ended
/// with `outcomes`.
pub open spec fn run(
    before: ChannelView,
    commands: Seq<AudioCommand>,
    outcomes: Seq<AudioCommandResult>,
) -> ChannelView
    decreases commands.len(),
{
    if commands.len() == 0 {
        before
    } else {
        effect(
            run(before, commands.drop_last(), outcomes.drop_last()),
            commands.last(),
            outcomes.last(),
        )
    }
}

/// Whether each of `outcomes` is possible for its command, on the channel
/// as the attempts before it left it.
pub open spec fn all_possible(
    enabled: bool,
    before: ChannelView,
    loaded: Set<u64>,
    commands: Seq<AudioCommand>,
    outcomes: Seq<AudioCommandResult>,
) -> bool {
    forall|i: int|
        0 <= i < commands.len() ==> possible(
            enabled,
            #[trigger] run(before, commands.take(i), outcomes.take(i)),
            loaded,
            commands[i],
            outcomes[i],
        )
}

/// Whether a drain that ended with `outcomes` took the queue from
/// `queue_before` to `queue_after` and the channel from `before` to
/// `after`: the commands were attempted oldest first, each outcome was
/// possible, those to be tried again stay in the queue in their order, and
/// the channel is what the attempts made of it.
pub open spec fn drained(
    enabled: bool,
    loaded: Set<u64>,
    before: ChannelView,
    after: ChannelView,
    queue_before: Seq<AudioCommand>,
    queue_after: Seq<AudioCommand>,
    outcomes: Seq<AudioCommandResult>,
) -> bool {
    &&& outcomes.len() == queue_before.len()
    &&& queue_after == retained(queue_before, outcomes)
    &&& all_possible(enabled, before, loaded, execution_order(queue_before), outcomes)
    &&& after == run(before, execution_order(queue_before), outcomes)
}

/// Each instance with the state that kira reported of it.
pub open spec fn reported(instances: Seq<InstanceHandle>, states: Seq<SoundState>) -> Seq<
    (InstanceHandle, SoundState),
> {
    Seq::new(instances.len(), |k: int| (instances[k], states[k]))
}

/// Whether kira reported the instance as one that has not ended.
pub open spec fn goes_on(report: (InstanceHandle, SoundState)) -> bool {
    report.1 != SoundState::Stopped
}

/// The instances that stay when those that kira reported as stopped are
/// forgotten, in the order they had.
pub open spec fn survivors(instances: Seq<InstanceHandle>, states: Seq<SoundState>) -> Seq<
    InstanceHandle,
> {
    reported(instances, states).filter(|r: (InstanceHandle, SoundState)| goes_on(r)).map_values(
        |r: (InstanceHandle, SoundState)| r.0,
    )
}

/// Whether `after` is what stays of `before` for some report of kira's.
pub open spec fn thinned(before: Seq<InstanceHandle>, after: Seq<InstanceHandle>) -> bool {
    exists|states: Seq<SoundState>|
        states.len() == before.len() && after == #[trigger] survivors(before, states)
}

/// Each handle with what callers are told of the state that was reported
/// of its instance.
pub open spec fn paired(handles: Seq<InstanceHandle>, reports: Seq<SoundState>) -> Seq<
    (InstanceHandle, PlaybackState),
> {
    Seq::new(handles.len(), |i: int| (handles[i], reports[i].spec_published()))
}

/// Whether `snapshot` names the instances, in their order, each with what
/// callers are told of the state in some report of kira's.
pub open spec fn snapshot_of(
    instances: Seq<InstanceHandle>,
    snapshot: Seq<(InstanceHandle, PlaybackState)>,
) -> bool {
    exists|reports: Seq<SoundState>|
        reports.len() == instances.len() && snapshot == #[trigger] paired(instances, reports)
}

/// Pairs each handle with what callers are told of the state that was
/// reported of its instance.
pub fn pair_states(handles: &Vec<InstanceHandle>, reports: &Vec<SoundState>) -> (snapshot: Vec<
    (InstanceHandle, PlaybackState),
>)
    requires
        handles@.len() == reports@.len(),
    ensures
        snapshot@ == paired(handles@, reports@),
{
    let mut snapshot: Vec<(InstanceHandle, PlaybackState)> = Vec::new();
    let mut i: usize = 0;
    while i < handles.len()
        invariant
            handles@.len() == reports@.len(),
            i <= handles@.len(),
            snapshot@ == paired(handles@.take(i as int), reports@.take(i as int)),
        decreases handles@.len() - i,
    {
        snapshot.push((handles[i], reports[i].published()));
        proof {
            assert(snapshot@ =~= paired(handles@.take(i + 1), reports@.take(i + 1)));
        }
        i += 1;
    }
    proof {
        assert(handles@.take(handles@.len() as int) =~= handles@);
        assert(reports@.take(reports@.len() as int) =~= reports@);
    }
    snapshot
}

/// One more report: the instance stays behind the others if it goes on.
pub proof fn lemma_survivors_next(
    instances: Seq<InstanceHandle>,
    states: Seq<SoundState>,
    instance: InstanceHandle,
    state: SoundState,
)
    requires
        instances.len() == states.len(),
    ensures
        survivors(instances.push(instance), states.push(state)) == if state
            != SoundState::Stopped {
            survivors(instances, states).push(instance)
        } else {
            survivors(instances, states)
        },
{
    let pred = |r: (InstanceHandle, SoundState)| goes_on(r);
    let first = |r: (InstanceHandle, SoundState)| r.0;
    let earlier = reported(instances, states);
    let all = reported(instances.push(instance), states.push(state));
    assert(all =~= earlier.push((instance, state)));
    earlier.lemma_filter_push((instance, state), pred);
    if state != SoundState::Stopped {
        assert(all.filter(pred).map_values(first) =~= earlier.filter(pred).map_values(first).push(
            instance,
        ));
    } else {
        assert(all.filter(pred) =~= earlier.filter(pred));
    }
}

/// `source` as a channel with `settings` levels it: with the levels of the
/// channel, an unset one taken from `defaults`, if any level was set on the
/// channel, and as it is if none was.
pub open spec fn leveled_by(
    settings: Option<ChannelState>,
    defaults: Levels,
    source: StaticSoundData,
) -> StaticSoundData {
    match settings {
        Some(state) => leveled(source, state.resolved(defaults)),
        None => source,
    }
}

/// `sound` as a play hands it on: with a loop over its whole length where
/// a loop is asked for and the sound brings none of its own, and as it is
/// otherwise.
pub open spec fn looping(looped: bool, sound: StaticSoundData) -> StaticSoundData {
    if looped && facts_of(sound).loop_start is None {
        whole_loop(sound)
    } else {
        sound
    }
}

/// What a play of `source` hands to kira, on a channel with `settings`: the
/// source with the channel's levels, then with the loop that the play asks
/// for.
pub open spec fn prepared(
    settings: Option<ChannelState>,
    defaults: Levels,
    looped: bool,
    source: StaticSoundData,
) -> StaticSoundData {
    looping(looped, leveled_by(settings, defaults, source))
}

/// What the start of a prepared sound depends on: what the start of its
/// source depends on, with a loop from the start where one was added.
pub open spec fn prepared_facts(looped: bool, source: SoundFacts) -> SoundFacts {
    if looped && source.loop_start is None {
        source.looped_whole()
    } else {
        source
    }
}

/// One sound that kira plays, with the handle that its caller holds.
pub(crate) struct InstanceState {
    kira: StaticSoundHandle,
    handle: InstanceHandle,
}

/// What is held for one channel.
struct Lane {
    instances: Vec<InstanceState>,
    settings: Option<ChannelState>,
}

/// The audio output. Without a manager it takes every command and does
/// nothing.
pub struct AudioOutput {
    manager: Option<Manager>,
    defaults: Levels,
    keys: Vec<Channel>,
    lanes: Vec<Lane>,
}

spec fn lane_view(lane: Lane) -> ChannelView {
    ChannelView {
        instances: lane.instances@.map_values(|instance: InstanceState| instance.handle),
        settings: lane.settings,
    }
}

impl AudioOutput {
    spec fn key_views(&self) -> Seq<ChannelKey> {
        self.keys@.map_values(|key: Channel| key@)
    }

    /// Every channel that something is held for is held once.
    pub closed spec fn wf(&self) -> bool {
        &&& self.key_views().no_duplicates()
        &&& self.keys@.len() == self.lanes@.len()
    }

    /// Whether there is a manager to play sounds with.
    pub closed spec fn enabled(&self) -> bool {
        self.manager is Some
    }

    /// The levels that stand for those that nobody has set on a channel.
    /// They are taken from kira when the output is made, and stay.
    pub closed spec fn defaults(&self) -> Levels {
        self.defaults
    }

    /// What is held for the channel `key`.
    pub closed spec fn channel(&self, key: ChannelKey) -> ChannelView {
        if self.key_views().contains(key) {
            lane_view(self.lanes@[self.key_views().index_of(key)])
        } else {
            ChannelView::silent()
        }
    }

    /// An output that plays through `manager`, or, without one, does
    /// nothing.
    pub fn new(manager: Option<Manager>) -> (output: AudioOutput)
        ensures
            output.wf(),
            output.enabled() == (manager is Some),
            forall|key: ChannelKey| output.channel(key) == ChannelView::silent(),
    {
        AudioOutput { manager, defaults: Levels::of_kira(), keys: Vec::new(), lanes: Vec::new() }
    }

    /// The levels that stand for those that nobody has set on a channel.
    pub fn default_levels(&self) -> (defaults: Levels)
        ensures
            defaults == self.defaults(),
    {
        self.defaults
    }

    /// Whether there is a manager to play sounds with.
    pub fn is_enabled(&self) -> (enabled: bool)
        ensures
            enabled == self.enabled(),
    {
        self.manager.is_some()
    }

    /// The manager, to reach kira through.
    pub fn manager_mut(&mut self) -> (manager: Option<&mut Manager>)
        requires
            old(self).wf(),
        ensures
            final(self).wf(),
            final(self).enabled() == old(self).enabled(),
            final(self).defaults() == old(self).defaults(),
            (manager is Some) == old(self).enabled(),
            forall|key: ChannelKey| final(self).channel(key) == old(self).channel(key),
    {
        self.manager.as_mut()
    }

    /// Two outputs with the same keys and, lane by lane, the same view hold
    /// the same for every channel.
    proof fn lemma_same_lanes(a: AudioOutput, b: AudioOutput)
        requires
            a.key_views() == b.key_views(),
            a.lanes@.len() == b.lanes@.len(),
            a.keys@.len() == a.lanes@.len(),
            forall|i: int| 0 <= i < a.lanes@.len() ==> lane_view(a.lanes@[i]) == lane_view(b.lanes@[i]),
        ensures
            forall|key: ChannelKey| a.channel(key) == b.channel(key),
    {
        assert forall|key: ChannelKey| a.channel(key) == b.channel(key) by {
            if a.key_views().contains(key) {
                let i = a.key_views().index_of(key);
                assert(a.key_views()[i] == key);
            }
        }
    }

    /// Where the lane of one key differs, only that key's channel differs,
    /// and it is what the new lane holds.
    proof fn lemma_one_lane(a: AudioOutput, b: AudioOutput, at: int)
        requires
            a.wf(),
            a.key_views() == b.key_views(),
            a.lanes@.len() == b.lanes@.len(),
            0 <= at < a.lanes@.len(),
            forall|i: int|
                0 <= i < a.lanes@.len() && i != at ==> lane_view(a.lanes@[i]) == lane_view(b.lanes@[i]),
        ensures
            b.wf(),
            b.channel(a.key_views()[at]) == lane_view(b.lanes@[at]),
            a.channel(a.key_views()[at]) == lane_view(a.lanes@[at]),
            forall|key: ChannelKey| key != a.key_views()[at] ==> a.channel(key) == b.channel(key),
    {
        let keys = a.key_views();
        assert(keys.contains(keys[at]));
        let found = keys.index_of(keys[at]);
        assert(keys[found] == keys[at]);
        assert forall|key: ChannelKey| key != keys[at] implies a.channel(key) == b.channel(key) by {
            if keys.contains(key) {
                let i = keys.index_of(key);
                assert(keys[i] == key);
            }
        }
    }

    /// Where `key` has its lane, if it has one.
    fn find(&self, key: &Channel) -> (place: Option<usize>)
        requires
            self.wf(),
        ensures
            match place {
                Some(i) => i < self.keys@.len() && self.key_views()[i as int] == key@
                    && self.key_views().index_of(key@) == i && self.key_views().contains(key@),
                None => !self.key_views().contains(key@),
            },
    {
        let mut i: usize = 0;
        while i < self.keys.len()
            invariant
                self.wf(),
                i <= self.keys@.len(),
                forall|k: int| 0 <= k < i ==> self.key_views()[k] != key@,
            decreases self.keys@.len() - i,
        {
            if self.keys[i] == *key {
                proof {
                    assert(self.key_views()[i as int] == key@);
                    assert(self.key_views().contains(key@));
                    let found = self.key_views().index_of(key@);
                    assert(self.key_views()[found] == key@);
                }
                return Some(i);
            }
            i += 1;
        }
        None
    }

    /// The place of the lane of `key`, which is made empty if there was
    /// none.
    fn lane_of(&mut self, key: &Channel) -> (place: usize)
        requires
            old(self).wf(),
        ensures
            final(self).wf(),
            final(self).manager == old(self).manager,
            final(self).defaults == old(self).defaults,
            place < final(self).keys@.len(),
            final(self).key_views()[place as int] == key@,
            final(self).key_views().index_of(key@) == place,
            lane_view(final(self).lanes@[place as int]) == old(self).channel(key@),
            forall|other: ChannelKey| final(self).channel(other) == old(self).channel(other),
    {
        match self.find(key) {
            Some(i) => i,
            None => {
                let end: usize = self.keys.len();
                self.keys.push(key.clone());
                self.lanes.push(Lane { instances: Vec::new(), settings: None });
                proof {
                    let before = old(self).key_views();
                    let after = self.key_views();
                    assert(after == before.push(key@));
                    assert(after[end as int] == key@);
                    assert(after.contains(key@));
                    let found = after.index_of(key@);
                    assert(after[found] == key@);
                    assert(lane_view(self.lanes@[end as int]).instances =~= Seq::empty());
                    assert forall|other: ChannelKey| self.channel(other) == old(self).channel(
                        other,
                    ) by {
                        if after.contains(other) {
                            let i = after.index_of(other);
                            assert(after[i] == other);
                            if i < end {
                                assert(before[i] == other);
                                let j = before.index_of(other);
                                assert(before[j] == other);
                            }
                        } else {
                            if before.contains(other) {
                                let j = before.index_of(other);
                                assert(before[j] == other);
                                assert(after[j] == other);
                            }
                        }
                    }
                }
                end
            },
        }
    }

    /// The handles of the instances that play on `key`, oldest first.
    pub fn instances(&self, key: &Channel) -> (handles: Vec<InstanceHandle>)
        requires
            self.wf(),
        ensures
            handles@ == self.channel(key@).instances,
    {
        let mut handles: Vec<InstanceHandle> = Vec::new();
        match self.find(key) {
            Some(i) => {
                let mut j: usize = 0;
                while j < self.lanes[i].instances.len()
                    invariant
                        i < self.lanes@.len(),
                        j <= self.lanes@[i as int].instances@.len(),
                        handles@ == lane_view(self.lanes@[i as int]).instances.take(j as int),
                    decreases self.lanes@[i as int].instances@.len() - j,
                {
                    handles.push(self.lanes[i].instances[j].handle);
                    j += 1;
                }
                proof {
                    let all = lane_view(self.lanes@[i as int]).instances;
                    assert(all.take(all.len() as int) == all);
                }
            },
            None => {},
        }
        handles
    }

    /// The levels that were set on `key`, if any were.
    pub fn settings(&self, key: &Channel) -> (settings: Option<ChannelState>)
        requires
            self.wf(),
        ensures
            settings == self.channel(key@).settings,
    {
        match self.find(key) {
            Some(i) => self.lanes[i].settings,
            None => None,
        }
    }

    /// Sends `request` to the instances of the lane at `place`, oldest
    /// first. A pause goes only to the instances that kira reports as
    /// playing, a resume only to those it reports as paused. A stop ends at
    /// the first instance whose request buffer is full, and the result says
    /// that it did.
    fn send(&mut self, place: usize, request: Request) -> (full: bool)
        requires
            old(self).wf(),
            place < old(self).lanes@.len(),
        ensures
            final(self).wf(),
            final(self).manager == old(self).manager,
            final(self).defaults == old(self).defaults,
            final(self).key_views() == old(self).key_views(),
            final(self).lanes@.len() == old(self).lanes@.len(),
            forall|m: int|
                0 <= m < old(self).lanes@.len() ==> lane_view(final(self).lanes@[m]) == lane_view(
                    old(self).lanes@[m],
                ),
            full ==> request is Stop && old(self).lanes@[place as int].instances@.len() > 0,
    {
        let mut j: usize = 0;
        while j < self.lanes[place].instances.len()
            invariant
                old(self).wf(),
                place < self.lanes@.len(),
                self.manager == old(self).manager,
                self.defaults == old(self).defaults,
                self.keys == old(self).keys,
                self.lanes@.len() == old(self).lanes@.len(),
                self.lanes@[place as int].instances@.len() == old(self).lanes@[place as int].instances@.len(),
                forall|m: int|
                    0 <= m < old(self).lanes@.len() ==> lane_view(self.lanes@[m]) == lane_view(
                        old(self).lanes@[m],
                    ),
            decreases self.lanes@[place as int].instances@.len() - j,
        {
            let ghost before = self.lanes@;
            match request {
                Request::Stop => {
                    if handle_stop(&mut self.lanes[place].instances[j].kira).puts_off() {
                        proof {
                            assert(lane_view(self.lanes@[place as int]).instances =~= lane_view(
                                before[place as int],
                            ).instances);
                        }
                        return true;
                    }
                },
                Request::Pause => {
                    if handle_state(&self.lanes[place].instances[j].kira).is_playing() {
                        handle_pause(&mut self.lanes[place].instances[j].kira);
                    }
                },
                Request::Resume => {
                    if handle_state(&self.lanes[place].instances[j].kira).is_paused() {
                        handle_resume(&mut self.lanes[place].instances[j].kira);
                    }
                },
                Request::Volume(volume) => {
                    handle_set_volume(&mut self.lanes[place].instances[j].kira, volume);
                },
                Request::Panning(panning) => {
                    handle_set_panning(&mut self.lanes[place].instances[j].kira, panning);
                },
                Request::PlaybackRate(playback_rate) => {
                    handle_set_playback_rate(
                        &mut self.lanes[place].instances[j].kira,
                        playback_rate,
                    );
                },
            }
            proof {
                assert(lane_view(self.lanes@[place as int]).instances =~= lane_view(
                    before[place as int],
                ).instances);
            }
            j += 1;
        }
        false
    }

    /// Asks every instance on `channel` to stop, with kira's default fade.
    /// Where an instance's request buffer is full the stop has to be tried
    /// again as a whole; kira's other errors are passed over.
    fn stop(&mut self, channel: &Channel) -> (result: AudioCommandResult)
        requires
            old(self).wf(),
        ensures
            final(self).wf(),
            final(self).enabled() == old(self).enabled(),
            final(self).defaults() == old(self).defaults(),
            forall|key: ChannelKey| final(self).channel(key) == old(self).channel(key),
            result != AudioCommandResult::Failed,
            old(self).channel(channel@).instances.len() == 0 ==> result == AudioCommandResult::Done,
    {
        match self.find(channel) {
            Some(place) => {
                let full = self.send(place, Request::Stop);
                proof {
                    Self::lemma_same_lanes(*old(self), *self);
                }
                if full {
                    AudioCommandResult::Retry
                } else {
                    AudioCommandResult::Done
                }
            },
            None => AudioCommandResult::Done,
        }
    }

    /// Asks every instance on `channel` that kira reports as playing to
    /// pause.
    fn pause(&mut self, channel: &Channel)
        requires
            old(self).wf(),
        ensures
            final(self).wf(),
            final(self).enabled() == old(self).enabled(),
            final(self).defaults() == old(self).defaults(),
            forall|key: ChannelKey| final(self).channel(key) == old(self).channel(key),
    {
        match self.find(channel) {
            Some(place) => {
                self.send(place, Request::Pause);
                proof {
                    Self::lemma_same_lanes(*old(self), *self);
                }
            },
            None => {},
        }
    }

    /// Asks every instance on `channel` that kira reports as paused to go
    /// on.
    fn resume(&mut self, channel: &Channel)
        requires
            old(self).wf(),
        ensures
            final(self).wf(),
            final(self).enabled() == old(self).enabled(),
            final(self).defaults() == old(self).defaults(),
            forall|key: ChannelKey| final(self).channel(key) == old(self).channel(key),
    {
        match self.find(channel) {
            Some(place) => {
                self.send(place, Request::Resume);
                proof {
                    Self::lemma_same_lanes(*old(self), *self);
                }
            },
            None => {},
        }
    }

    /// Sets the volume of every instance on `channel` and writes it down
    /// for the sounds that start on the channel later.
    fn set_volume(&mut self, channel: &Channel, volume: Volume)
        requires
            old(self).wf(),
        ensures
            final(self).wf(),
            final(self).enabled() == old(self).enabled(),
            final(self).defaults() == old(self).defaults(),
            final(self).channel(channel@) == (ChannelView {
                settings: Some(volume_set(old(self).channel(channel@).settings, volume)),
                ..old(self).channel(channel@)
            }),
            forall|key: ChannelKey| key != channel@ ==> final(self).channel(key) == old(self).channel(key),
    {
        let place = self.lane_of(channel);
        let ghost made = *self;
        self.send(place, Request::Volume(volume));
        let ghost sent = *self;
        let state = match self.lanes[place].settings {
            Some(state) => ChannelState { volume: Some(volume), ..state },
            None => ChannelState { volume: Some(volume), playback_rate: None, panning: None },
        };
        self.lanes[place].settings = Some(state);
        proof {
            Self::lemma_same_lanes(made, sent);
            Self::lemma_one_lane(sent, *self, place as int);
        }
    }

    /// Sets the panning of every instance on `channel` and writes it down
    /// for the sounds that start on the channel later.
    fn set_panning(&mut self, channel: &Channel, panning: PanningControlBuilder)
        requires
            old(self).wf(),
        ensures
            final(self).wf(),
            final(self).enabled() == old(self).enabled(),
            final(self).defaults() == old(self).defaults(),
            final(self).channel(channel@) == (ChannelView {
                settings: Some(panning_set(old(self).channel(channel@).settings, panning)),
                ..old(self).channel(channel@)
            }),
            forall|key: ChannelKey| key != channel@ ==> final(self).channel(key) == old(self).channel(key),
    {
        let place = self.lane_of(channel);
        let ghost made = *self;
        self.send(place, Request::Panning(panning));
        let ghost sent = *self;
        let state = match self.lanes[place].settings {
            Some(state) => ChannelState { panning: Some(panning), ..state },
            None => ChannelState { volume: None, playback_rate: None, panning: Some(panning) },
        };
        self.lanes[place].settings = Some(state);
        proof {
            Self::lemma_same_lanes(made, sent);
            Self::lemma_one_lane(sent, *self, place as int);
        }
    }

    /// Sets the playback rate of every instance on `channel` and writes it
    /// down for the sounds that start on the channel later.
    fn set_playback_rate(&mut self, channel: &Channel, playback_rate: PlaybackRate)
        requires
            old(self).wf(),
        ensures
            final(self).wf(),
            final(self).enabled() == old(self).enabled(),
            final(self).defaults() == old(self).defaults(),
            final(self).channel(channel@) == (ChannelView {
                settings: Some(
                    playback_rate_set(old(self).channel(channel@).settings, playback_rate),
                ),
                ..old(self).channel(channel@)
            }),
            forall|key: ChannelKey| key != channel@ ==> final(self).channel(key) == old(self).channel(key),
    {
        let place = self.lane_of(channel);
        let ghost made = *self;
        self.send(place, Request::PlaybackRate(playback_rate));
        let ghost sent = *self;
        let state = match self.lanes[place].settings {
            Some(state) => ChannelState { playback_rate: Some(playback_rate), ..state },
            None => ChannelState {
                volume: None,
                playback_rate: Some(playback_rate),
                panning: None,
            },
        };
        self.lanes[place].settings = Some(state);
        proof {
            Self::lemma_same_lanes(made, sent);
            Self::lemma_one_lane(sent, *self, place as int);
        }
    }

    /// Starts `audio_source` on `channel`: a copy of the sound gets the
    /// levels of the channel, if any were set on it, and a loop over its
    /// whole length if one is asked for and the sound has none of its own;
    /// then it goes to kira. The instance that kira hands back is kept
    /// under `instance_handle`. Where kira takes no sound the command
    /// fails.
    fn play(
        &mut self,
        channel: &Channel,
        play_settings: &PlayAudioSettings,
        audio_source: &StaticSoundData,
        instance_handle: InstanceHandle,
    ) -> (result: AudioCommandResult)
        requires
            old(self).wf(),
            facts_of(*audio_source).spec_startable(),
        ensures
            final(self).wf(),
            final(self).enabled() == old(self).enabled(),
            final(self).defaults() == old(self).defaults(),
            result != AudioCommandResult::Retry,
            !old(self).enabled() ==> result == AudioCommandResult::Failed,
            final(self).channel(channel@) == if result == AudioCommandResult::Done {
                ChannelView {
                    instances: old(self).channel(channel@).instances.push(instance_handle),
                    ..old(self).channel(channel@)
                }
            } else {
                old(self).channel(channel@)
            },
            forall|key: ChannelKey| key != channel@ ==> final(self).channel(key) == old(self).channel(key),
    {
        let sound = self.prepare(channel, play_settings, audio_source);
        proof {
            facts_of(*audio_source).lemma_whole_loop_starts();
        }
        let started = match self.manager.as_mut() {
            Some(manager) => start_sound(manager, sound),
            None => None,
        };
        self.keep(channel, instance_handle, started)
    }

    /// The sound that a play of `audio_source` on `channel` hands to kira:
    /// a copy of the source with the levels of the channel, if any were set
    /// on it, and with a loop over its whole length if `play_settings` ask
    /// for a loop and the sound brings none of its own. Of what the start
    /// of the sound depends on, only the loop can differ from the source.
    pub fn prepare(
        &self,
        channel: &Channel,
        play_settings: &PlayAudioSettings,
        audio_source: &StaticSoundData,
    ) -> (sound: StaticSoundData)
        requires
            self.wf(),
        ensures
            sound == prepared(
                self.channel(channel@).settings,
                self.defaults(),
                play_settings.looped,
                *audio_source,
            ),
            facts_of(sound) == prepared_facts(play_settings.looped, facts_of(*audio_source)),
    {
        let mut sound = clone_sound(audio_source);
        match self.settings(channel) {
            Some(channel_state) => {
                channel_state.apply(&mut sound, self.defaults);
            },
            None => {},
        }
        if play_settings.looped && sound_facts(&sound).loop_start.is_none() {
            sound_loop_from_start(&mut sound);
        }
        sound
    }

    /// Ends a play on `channel` with what kira answered: the instance that
    /// kira started is kept under `instance_handle`, behind the others of
    /// the channel, and the play is done; where kira started none, the play
    /// has failed and nothing is kept.
    fn keep(
        &mut self,
        channel: &Channel,
        instance_handle: InstanceHandle,
        started: Option<StaticSoundHandle>,
    ) -> (result: AudioCommandResult)
        requires
            old(self).wf(),
        ensures
            final(self).wf(),
            final(self).enabled() == old(self).enabled(),
            final(self).defaults() == old(self).defaults(),
            result == if started is Some {
                AudioCommandResult::Done
            } else {
                AudioCommandResult::Failed
            },
            final(self).channel(channel@) == if started is Some {
                ChannelView {
                    instances: old(self).channel(channel@).instances.push(instance_handle),
                    ..old(self).channel(channel@)
                }
            } else {
                old(self).channel(channel@)
            },
            forall|key: ChannelKey| key != channel@ ==> final(self).channel(key) == old(self).channel(key),
    {
        match started {
            Some(kira) => {
                let place = self.lane_of(channel);
                let ghost made = *self;
                self.lanes[place].instances.push(InstanceState { kira, handle: instance_handle });
                proof {
                    assert(lane_view(self.lanes@[place as int]).instances =~= lane_view(
                        made.lanes@[place as int],
                    ).instances.push(instance_handle));
                    Self::lemma_one_lane(made, *self, place as int);
                }
                AudioCommandResult::Done
            },
            None => AudioCommandResult::Failed,
        }
    }

    /// Runs one command of `channel`. Without a manager the command fails
    /// and nothing happens. A play whose sound is not loaded yet is put
    /// off; a stop is put off where kira cannot take it for the moment.
    pub fn run_audio_command(
        &mut self,
        audio_command: &AudioCommand,
        audio_sources: &AudioSources,
        channel: &Channel,
    ) -> (result: AudioCommandResult)
        requires
            old(self).wf(),
            audio_sources.wf(),
        ensures
            final(self).wf(),
            final(self).enabled() == old(self).enabled(),
            final(self).defaults() == old(self).defaults(),
            possible(
                old(self).enabled(),
                old(self).channel(channel@),
                audio_sources@.dom(),
                *audio_command,
                result,
            ),
            final(self).channel(channel@) == effect(
                old(self).channel(channel@),
                *audio_command,
                result,
            ),
            forall|key: ChannelKey| key != channel@ ==> final(self).channel(key) == old(self).channel(key),
    {
        if self.manager.is_none() {
            return AudioCommandResult::Failed;
        }
        match audio_command {
            AudioCommand::Play(play_args) => {
                match audio_sources.get(play_args.settings.source) {
                    Some(audio_source) => self.play(
                        channel,
                        &play_args.settings,
                        audio_source,
                        play_args.instance_handle,
                    ),
                    None => AudioCommandResult::Retry,
                }
            },
            AudioCommand::Stop => self.stop(channel),
            AudioCommand::Pause => {
                self.pause(channel);
                AudioCommandResult::Done
            },
            AudioCommand::Resume => {
                self.resume(channel);
                AudioCommandResult::Done
            },
            AudioCommand::SetVolume(volume) => {
                self.set_volume(channel, *volume);
                AudioCommandResult::Done
            },
            AudioCommand::SetPanning(panning) => {
                self.set_panning(channel, *panning);
                AudioCommandResult::Done
            },
            AudioCommand::SetPlaybackRate(playback_rate) => {
                self.set_playback_rate(channel, *playback_rate);
                AudioCommandResult::Done
            },
        }
    }

    /// Drains the queue of `channel`, which is the channel `key`: as many
    /// commands as wait at the start are run, oldest first, and each that
    /// has to be tried again goes back into the queue behind those that
    /// still wait. The result lists how the attempts ended, in their order.
    /// Without a manager every command fails and leaves the queue.
    pub fn play_channel(
        &mut self,
        audio_sources: &AudioSources,
        key: &Channel,
        channel: &mut DynamicAudioChannel,
    ) -> (outcomes: Vec<AudioCommandResult>)
        requires
            old(self).wf(),
            audio_sources.wf(),
        ensures
            final(self).wf(),
            final(self).enabled() == old(self).enabled(),
            final(self).defaults() == old(self).defaults(),
            final(channel).states() == old(channel).states(),
            drained(
                old(self).enabled(),
                audio_sources@.dom(),
                old(self).channel(key@),
                final(self).channel(key@),
                old(channel).commands(),
                final(channel).commands(),
                outcomes@,
            ),
            forall|other: ChannelKey| other != key@ ==> final(self).channel(other) == old(self).channel(other),
    {
        let len: usize = channel.pending();
        let mut outcomes: Vec<AudioCommandResult> = Vec::new();
        let ghost queue = channel.commands();
        let ghost order = execution_order(queue);
        let ghost before = old(self).channel(key@);
        let ghost enabled = old(self).enabled();
        let ghost loaded = audio_sources@.dom();
        proof {
            lemma_drain_start(queue);
            assert(order.take(0) =~= Seq::empty());
        }
        let mut i: usize = 0;
        while i < len
            invariant
                self.wf(),
                self.enabled() == enabled,
                self.defaults() == old(self).defaults(),
                enabled == old(self).enabled(),
                before == old(self).channel(key@),
                loaded == audio_sources@.dom(),
                audio_sources.wf(),
                queue == old(channel).commands(),
                order == execution_order(queue),
                len == queue.len(),
                i <= len,
                outcomes@.len() == i,
                channel.states() == old(channel).states(),
                channel.commands() == mid_drain(queue, outcomes@),
                all_possible(enabled, before, loaded, order.take(i as int), outcomes@),
                self.channel(key@) == run(before, order.take(i as int), outcomes@),
                forall|other: ChannelKey|
                    other != key@ ==> self.channel(other) == old(self).channel(other),
            decreases len - i,
        {
            let ghost done = outcomes@;
            let audio_command = channel.take_oldest().unwrap();
            let result = self.run_audio_command(&audio_command, audio_sources, key);
            channel.settle(audio_command, result);
            outcomes.push(result);
            proof {
                lemma_drain_step(queue, done, result);
                lemma_run_next(enabled, before, loaded, order, done, result);
            }
            i += 1;
        }
        proof {
            lemma_drain_end(queue, outcomes@);
            assert(order.take(len as int) =~= order);
        }
        outcomes
    }

    /// Drains the queue of every channel of `channels`, in registry order,
    /// as `play_channel` does. The result holds the outcomes of each
    /// channel's attempts, at the channel's place in the registry.
    pub fn play_dynamic_channels(
        &mut self,
        audio_sources: &AudioSources,
        channels: &mut DynamicAudioChannels,
    ) -> (report: Vec<Vec<AudioCommandResult>>)
        requires
            old(self).wf(),
            old(channels).wf(),
            audio_sources.wf(),
        ensures
            final(self).wf(),
            final(self).enabled() == old(self).enabled(),
            final(self).defaults() == old(self).defaults(),
            final(channels).wf(),
            final(channels).names() == old(channels).names(),
            report@.len() == old(channels).names().len(),
            forall|i: int|
                0 <= i < old(channels).names().len() ==> {
                    &&& (#[trigger] final(channels).channels()[i]).states() == old(channels).channels()[i].states()
                    &&& drained(
                        old(self).enabled(),
                        audio_sources@.dom(),
                        old(self).channel(ChannelKey::Dynamic(old(channels).names()[i])),
                        final(self).channel(ChannelKey::Dynamic(old(channels).names()[i])),
                        old(channels).channels()[i].commands(),
                        final(channels).channels()[i].commands(),
                        report@[i]@,
                    )
                },
            forall|other: ChannelKey|
                !(other matches ChannelKey::Dynamic(name) && old(channels).contains(name))
                    ==> final(self).channel(other) == old(self).channel(other),
    {
        let count: usize = channels.len();
        let mut report: Vec<Vec<AudioCommandResult>> = Vec::new();
        let ghost names = channels.names();
        let ghost enabled = old(self).enabled();
        let ghost loaded = audio_sources@.dom();
        let mut i: usize = 0;
        while i < count
            invariant
                self.wf(),
                self.enabled() == enabled,
                self.defaults() == old(self).defaults(),
                enabled == old(self).enabled(),
                loaded == audio_sources@.dom(),
                audio_sources.wf(),
                old(channels).wf(),
                channels.wf(),
                channels.names() == names,
                names == old(channels).names(),
                count == names.len(),
                i <= count,
                report@.len() == i,
                forall|j: int|
                    0 <= j < i ==> {
                        &&& (#[trigger] channels.channels()[j]).states() == old(channels).channels()[j].states()
                        &&& drained(
                            enabled,
                            loaded,
                            old(self).channel(ChannelKey::Dynamic(names[j])),
                            self.channel(ChannelKey::Dynamic(names[j])),
                            old(channels).channels()[j].commands(),
                            channels.channels()[j].commands(),
                            report@[j]@,
                        )
                    },
                forall|j: int|
                    i <= j < count ==> #[trigger] channels.channels()[j] == old(channels).channels()[j],
                forall|j: int|
                    i <= j < count ==> self.channel(ChannelKey::Dynamic(#[trigger] names[j]))
                        == old(self).channel(ChannelKey::Dynamic(names[j])),
                forall|other: ChannelKey|
                    !(other matches ChannelKey::Dynamic(name) && names.contains(name))
                        ==> self.channel(other) == old(self).channel(other),
            decreases count - i,
        {
            let key = Channel::Dynamic(channels.name_at(i).clone());
            let ghost lanes_before = channels.channels();
            let ghost report_before = report@;
            let channel = channels.channel_at_mut(i);
            let outcomes = self.play_channel(audio_sources, &key, channel);
            report.push(outcomes);
            proof {
                assert(key@ == ChannelKey::Dynamic(names[i as int]));
                assert(names.contains(names[i as int]));
                assert forall|j: int| 0 <= j < i + 1 implies {
                    &&& (#[trigger] channels.channels()[j]).states() == old(channels).channels()[j].states()
                    &&& drained(
                        enabled,
                        loaded,
                        old(self).channel(ChannelKey::Dynamic(names[j])),
                        self.channel(ChannelKey::Dynamic(names[j])),
                        old(channels).channels()[j].commands(),
                        channels.channels()[j].commands(),
                        report@[j]@,
                    )
                } by {
                    if j < i {
                        assert(names[j] != names[i as int]);
                        assert(lanes_before[j].states() == old(channels).channels()[j].states());
                        assert(report@[j] == report_before[j]);
                    } else {
                        assert(lanes_before[i as int] == old(channels).channels()[i as int]);
                    }
                }
                assert forall|j: int| i + 1 <= j < count implies self.channel(
                    ChannelKey::Dynamic(#[trigger] names[j]),
                ) == old(self).channel(ChannelKey::Dynamic(names[j])) by {
                    assert(names[j] != names[i as int]);
                }
            }
            i += 1;
        }
        report
    }

    /// The states that kira reports of the instances of the lane at
    /// `place`, oldest first. Nothing is known of the states.
    fn reports_at(&self, place: usize) -> (reports: Vec<SoundState>)
        requires
            place < self.lanes@.len(),
        ensures
            reports@.len() == self.lanes@[place as int].instances@.len(),
    {
        let mut reports: Vec<SoundState> = Vec::new();
        let mut j: usize = 0;
        while j < self.lanes[place].instances.len()
            invariant
                place < self.lanes@.len(),
                j <= self.lanes@[place as int].instances@.len(),
                reports@.len() == j,
            decreases self.lanes@[place as int].instances@.len() - j,
        {
            reports.push(handle_state(&self.lanes[place].instances[j].kira));
            j += 1;
        }
        reports
    }

    /// The states that kira reports of the instances on `key`, oldest
    /// first: one for each instance. Nothing is known of the states.
    pub fn reports(&self, key: &Channel) -> (reports: Vec<SoundState>)
        requires
            self.wf(),
        ensures
            reports@.len() == self.channel(key@).instances.len(),
    {
        match self.find(key) {
            Some(place) => self.reports_at(place),
            None => Vec::new(),
        }
    }

    /// Forgets the instances of the lane at `place` of which `states`
    /// reports that they have stopped.
    fn forget_stopped_at(&mut self, place: usize, states: &Vec<SoundState>)
        requires
            old(self).wf(),
            place < old(self).lanes@.len(),
            states@.len() == old(self).lanes@[place as int].instances@.len(),
        ensures
            final(self).wf(),
            final(self).manager == old(self).manager,
            final(self).defaults == old(self).defaults,
            final(self).key_views() == old(self).key_views(),
            final(self).lanes@.len() == old(self).lanes@.len(),
            lane_view(final(self).lanes@[place as int]) == (ChannelView {
                instances: survivors(lane_view(old(self).lanes@[place as int]).instances, states@),
                ..lane_view(old(self).lanes@[place as int])
            }),
            forall|m: int|
                0 <= m < old(self).lanes@.len() && m != place ==> lane_view(
                    final(self).lanes@[m],
                ) == lane_view(old(self).lanes@[m]),
    {
        let ghost origin = lane_view(self.lanes@[place as int]).instances;
        let ghost lanes_before = self.lanes@;
        proof {
            assert(origin.take(0) =~= Seq::empty());
            assert(origin.skip(0) =~= origin);
            assert(states@.take(0) =~= Seq::empty());
            assert(reported(Seq::empty(), states@.take(0)) =~= Seq::empty());
            reveal(Seq::filter);
            assert(survivors(Seq::empty(), states@.take(0)) =~= Seq::empty());
        }
        let mut kept: usize = 0;
        let mut seen: usize = 0;
        while seen < states.len()
            invariant
                self.manager == old(self).manager,
                self.defaults == old(self).defaults,
                self.keys == old(self).keys,
                self.lanes@.len() == lanes_before.len(),
                place < self.lanes@.len(),
                origin.len() == states@.len(),
                self.lanes@[place as int].settings == lanes_before[place as int].settings,
                forall|m: int|
                    0 <= m < self.lanes@.len() && m != place ==> lane_view(
                        #[trigger] self.lanes@[m],
                    ) == lane_view(lanes_before[m]),
                seen <= states@.len(),
                kept == survivors(origin.take(seen as int), states@.take(seen as int)).len(),
                lane_view(self.lanes@[place as int]).instances == survivors(
                    origin.take(seen as int),
                    states@.take(seen as int),
                ) + origin.skip(seen as int),
            decreases states@.len() - seen,
        {
            let ghost stay = survivors(origin.take(seen as int), states@.take(seen as int));
            let ghost now = lane_view(self.lanes@[place as int]).instances;
            proof {
                assert(now.len() == stay.len() + (origin.len() - seen));
                assert(now.len() == self.lanes@[place as int].instances@.len());
                assert(now[kept as int] == origin[seen as int]);
                assert(origin.take(seen + 1) =~= origin.take(seen as int).push(origin[seen as int]));
                assert(states@.take(seen + 1) =~= states@.take(seen as int).push(
                    states@[seen as int],
                ));
                lemma_survivors_next(
                    origin.take(seen as int),
                    states@.take(seen as int),
                    origin[seen as int],
                    states@[seen as int],
                );
            }
            if states[seen].is_stopped() {
                self.lanes[place].instances.remove(kept);
                proof {
                    assert(lane_view(self.lanes@[place as int]).instances =~= now.remove(
                        kept as int,
                    ));
                    assert(now.remove(kept as int) =~= stay + origin.skip(seen + 1));
                }
            } else {
                proof {
                    assert(now =~= stay.push(origin[seen as int]) + origin.skip(seen + 1));
                }
                kept += 1;
            }
            seen += 1;
        }
        proof {
            assert(origin.take(origin.len() as int) =~= origin);
            assert(states@.take(states@.len() as int) =~= states@);
            assert(lane_view(self.lanes@[place as int]).instances =~= survivors(origin, states@));
        }
    }

    /// Forgets the instances on `key` of which `states` reports that they
    /// have stopped, where `states` holds one state for each instance on
    /// the channel, oldest first. The others stay in their order; levels
    /// and other channels are not touched.
    pub fn forget_stopped(&mut self, key: &Channel, states: &Vec<SoundState>)
        requires
            old(self).wf(),
            states@.len() == old(self).channel(key@).instances.len(),
        ensures
            final(self).wf(),
            final(self).enabled() == old(self).enabled(),
            final(self).defaults() == old(self).defaults(),
            final(self).channel(key@) == (ChannelView {
                instances: survivors(old(self).channel(key@).instances, states@),
                ..old(self).channel(key@)
            }),
            forall|other: ChannelKey| other != key@ ==> final(self).channel(other) == old(self).channel(other),
    {
        match self.find(key) {
            Some(place) => {
                self.forget_stopped_at(place, states);
                proof {
                    Self::lemma_one_lane(*old(self), *self, place as int);
                }
            },
            None => {
                proof {
                    assert(reported(Seq::empty(), states@) =~= Seq::empty());
                    reveal(Seq::filter);
                    assert(survivors(Seq::empty(), states@) =~= Seq::empty());
                }
            },
        }
    }

    /// Forgets, on every channel, the instances that kira reports as
    /// stopped: it asks kira for the state of each instance and hands the
    /// states to `forget_stopped`. The others stay in their order; levels
    /// are not touched.
    pub fn cleanup_stopped_instances(&mut self)
        requires
            old(self).wf(),
        ensures
            final(self).wf(),
            final(self).enabled() == old(self).enabled(),
            final(self).defaults() == old(self).defaults(),
            forall|key: ChannelKey|
                {
                    &&& (#[trigger] final(self).channel(key)).settings == old(self).channel(
                        key,
                    ).settings
                    &&& thinned(old(self).channel(key).instances, final(self).channel(key).instances)
                },
    {
        let mut i: usize = 0;
        while i < self.lanes.len()
            invariant
                old(self).wf(),
                self.wf(),
                self.manager == old(self).manager,
                self.defaults == old(self).defaults,
                self.key_views() == old(self).key_views(),
                self.lanes@.len() == old(self).lanes@.len(),
                i <= self.lanes@.len(),
                forall|m: int|
                    0 <= m < self.lanes@.len() ==> (#[trigger] lane_view(self.lanes@[m])).settings
                        == lane_view(old(self).lanes@[m]).settings,
                forall|m: int|
                    0 <= m < i ==> thinned(
                        lane_view(old(self).lanes@[m]).instances,
                        (#[trigger] lane_view(self.lanes@[m])).instances,
                    ),
                forall|m: int|
                    i <= m < self.lanes@.len() ==> #[trigger] lane_view(self.lanes@[m])
                        == lane_view(old(self).lanes@[m]),
            decreases self.lanes@.len() - i,
        {
            let states = self.reports_at(i);
            let ghost before = lane_view(self.lanes@[i as int]).instances;
            self.forget_stopped_at(i, &states);
            proof {
                assert(lane_view(self.lanes@[i as int]).instances == survivors(before, states@));
            }
            i += 1;
        }
        proof {
            let keys = self.key_views();
            assert forall|key: ChannelKey|
                {
                    &&& (#[trigger] self.channel(key)).settings == old(self).channel(key).settings
                    &&& thinned(old(self).channel(key).instances, self.channel(key).instances)
                } by {
                if keys.contains(key) {
                    let m = keys.index_of(key);
                    assert(keys[m] == key);
                    assert(thinned(
                        lane_view(old(self).lanes@[m]).instances,
                        lane_view(self.lanes@[m]).instances,
                    ));
                } else {
                    let none: Seq<SoundState> = Seq::empty();
                    assert(reported(Seq::empty(), none) =~= Seq::empty());
                    reveal(Seq::filter);
                    assert(survivors(Seq::empty(), none) =~= Seq::empty());
                }
            }
        }
    }

    /// The instances on `key`, oldest first, each with what callers are
    /// told of the state that kira reports of it: the handles of the
    /// channel paired with kira's reports, by `pair_states`.
    pub fn instance_states(&self, key: &Channel) -> (snapshot: Vec<(InstanceHandle, PlaybackState)>)
        requires
            self.wf(),
        ensures
            snapshot_of(self.channel(key@).instances, snapshot@),
    {
        let handles = self.instances(key);
        let reports = self.reports(key);
        pair_states(&handles, &reports)
    }

    /// Tells `channel`, which is the channel `key`, the state of its
    /// instances: what the channel showed before is replaced by what kira
    /// reports now of each instance that plays on it.
    pub fn update_instance_states(&self, key: &Channel, channel: &mut DynamicAudioChannel)
        requires
            self.wf(),
        ensures
            final(channel).commands() == old(channel).commands(),
            exists|snapshot: Seq<(InstanceHandle, PlaybackState)>|
                #[trigger] snapshot_of(self.channel(key@).instances, snapshot) && final(channel).states() == published(snapshot),
    {
        let snapshot = self.instance_states(key);
        channel.publish(&snapshot);
    }
}


/// One more attempt: the channel is then what the attempt makes of it, and
/// the outcomes are all possible if the new one is.
proof fn lemma_run_next(
    enabled: bool,
    before: ChannelView,
    loaded: Set<u64>,
    order: Seq<AudioCommand>,
    done: Seq<AudioCommandResult>,
    outcome: AudioCommandResult,
)
    requires
        done.len() < order.len(),
        all_possible(enabled, before, loaded, order.take(done.len() as int), done),
        possible(
            enabled,
            run(before, order.take(done.len() as int), done),
            loaded,
            order[done.len() as int],
            outcome,
        ),
    ensures
        run(before, order.take(done.len() as int + 1), done.push(outcome)) == effect(
            run(before, order.take(done.len() as int), done),
            order[done.len() as int],
            outcome,
        ),
        all_possible(enabled, before, loaded, order.take(done.len() as int + 1), done.push(outcome)),
{
    let n = done.len() as int;
    let commands = order.take(n + 1);
    let outcomes = done.push(outcome);
    assert(commands.drop_last() =~= order.take(n));
    assert(outcomes.drop_last() =~= done);
    assert forall|i: int| 0 <= i < commands.len() implies possible(
        enabled,
        #[trigger] run(before, commands.take(i), outcomes.take(i)),
        loaded,
        commands[i],
        outcomes[i],
    ) by {
        if i < n {
            assert(commands.take(i) =~= order.take(n).take(i));
            assert(outcomes.take(i) =~= done.take(i));
            assert(run(before, order.take(n).take(i), done.take(i)) == run(
                before,
                commands.take(i),
                outcomes.take(i),
            ));
        } else {
            assert(commands.take(i) =~= order.take(n));
            assert(outcomes.take(i) =~= done);
        }
    }
}

/// What can be asked of the instances of a channel.
#[derive(Clone, Copy)]
enum Request {
    Stop,
    Pause,
    Resume,
    Volume(Volume),
    Panning(PanningControlBuilder),
    PlaybackRate(PlaybackRate),
}

} // verus!
