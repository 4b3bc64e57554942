//! Channels: who they are, what callers can ask of one, and the registry of
//! the channels that are made and removed while the program runs.

use vstd::prelude::*;
use std::any::TypeId;
use std::collections::HashMap;
use kira::track::effect::panning_control::PanningControlBuilder;
use kira::PlaybackRate;
use kira::Volume;
use vstd::std_specs::cmp::PartialEqSpecImpl;
use crate::command::AudioCommand;
use crate::command::AudioCommandResult;
use crate::command::PlayAudioCommandArgs;
use crate::command::PlayAudioSettings;
use crate::command::SourceId;
use crate::instance::HandleMint;
use crate::instance::InstanceHandle;
use crate::instance::PlaybackState;
use crate::queue::CommandQueue;

verus! {

broadcast use vstd::std_specs::hash::group_hash_axioms;

/// std's `TypeId`. Closed to Verus: a value to carry and to compare.
#[verifier::external_type_specification]
#[verifier::external_body]
pub struct ExTypeId(TypeId);

/// `TypeId::eq`: whether the two ids stand for one type, which is what
/// being equal means for two of them.
#[verifier::external_body]
fn same_type(a: &TypeId, b: &TypeId) -> (same: bool)
    ensures
        same == (*a == *b),
{
    a == b
}

/// Which channel: one that stands for a type of the program, or one that was
/// made under a name while the program runs.
#[derive(Debug, Hash)]
pub enum Channel {
    Typed(TypeId),
    Dynamic(String),
}

/// A channel's identity as contracts speak of it.
pub enum ChannelKey {
    Typed(TypeId),
    Dynamic(Seq<char>),
}

impl View for Channel {
    type V = ChannelKey;

    open spec fn view(&self) -> ChannelKey {
        match self {
            Channel::Typed(id) => ChannelKey::Typed(*id),
            Channel::Dynamic(name) => ChannelKey::Dynamic(name@),
        }
    }
}

impl Clone for Channel {
    fn clone(&self) -> (copy: Channel)
        ensures
            copy@ == self@,
    {
        match self {
            Channel::Typed(id) => Channel::Typed(*id),
            Channel::Dynamic(name) => Channel::Dynamic(name.clone()),
        }
    }
}

impl PartialEq for Channel {
    fn eq(&self, other: &Channel) -> (same: bool) {
        match self {
            Channel::Typed(a) => match other {
                Channel::Typed(b) => same_type(a, b),
                Channel::Dynamic(_) => false,
            },
            Channel::Dynamic(a) => match other {
                Channel::Typed(_) => false,
                Channel::Dynamic(b) => *a == *b,
            },
        }
    }
}

impl PartialEqSpecImpl for Channel {
    open spec fn obeys_eq_spec() -> bool {
        true
    }

    open spec fn eq_spec(&self, other: &Channel) -> bool {
        self@ == other@
    }
}

impl Eq for Channel {
}

/// A command that asks to play `source` and promises `handle` for it.
pub open spec fn play_command(
    source: SourceId,
    intro_source: Option<SourceId>,
    looped: bool,
    handle: InstanceHandle,
) -> AudioCommand {
    AudioCommand::Play(
        PlayAudioCommandArgs {
            settings: PlayAudioSettings { source, intro_source, looped },
            instance_handle: handle,
        },
    )
}

/// Whether `command` is the play command that `handle` was promised for.
pub open spec fn plays(command: AudioCommand, handle: InstanceHandle) -> bool {
    command matches AudioCommand::Play(args) && args.instance_handle@ == handle@
}

/// Whether a play command for `handle` waits in `commands`.
pub open spec fn is_queued(commands: Seq<AudioCommand>, handle: InstanceHandle) -> bool {
    exists|i: int| 0 <= i < commands.len() && plays(#[trigger] commands[i], handle)
}

/// What a channel with the published `states` and the queue `commands`
/// says of `handle`: its published state if it has one; else `Queued` while
/// its play command waits; else `Stopped`.
pub open spec fn state_of(
    states: Map<u64, PlaybackState>,
    commands: Seq<AudioCommand>,
    handle: InstanceHandle,
) -> PlaybackState {
    if states.contains_key(handle@) {
        states[handle@]
    } else if is_queued(commands, handle) {
        PlaybackState::Queued
    } else {
        PlaybackState::Stopped
    }
}

/// The states that a channel shows after `snapshot` has been published on
/// it: for each handle in it the state that stands with it, the later one
/// where a handle stands twice.
pub open spec fn published(snapshot: Seq<(InstanceHandle, PlaybackState)>) -> Map<
    u64,
    PlaybackState,
>
    decreases snapshot.len(),
{
    if snapshot.len() == 0 {
        Map::empty()
    } else {
        published(snapshot.drop_last()).insert(snapshot.last().0@, snapshot.last().1)
    }
}

/// What callers can ask of a channel, whichever kind it is. Every request
/// but `state` only queues a command, newest first; the audio output runs
/// it at the next tick.
pub trait AudioControl {
    /// The commands that wait, newest first.
    spec fn commands(&self) -> Seq<AudioCommand>;

    /// The state that was last published for each instance, by the
    /// instance handle's number.
    spec fn states(&self) -> Map<u64, PlaybackState>;

    /// Play audio once.
    fn play(&mut self, ids: &mut HandleMint, audio_source: SourceId) -> (handle: InstanceHandle)
        requires
            old(ids).issued() < u64::MAX,
        ensures
            handle@ == old(ids).issued(),
            final(ids).issued() == old(ids).issued() + 1,
            final(self).commands() == seq![play_command(audio_source, None, false, handle)] + old(self).commands(),
            final(self).states() == old(self).states(),
    ;

    /// Play looped audio.
    fn play_looped(&mut self, ids: &mut HandleMint, audio_source: SourceId) -> (handle:
        InstanceHandle)
        requires
            old(ids).issued() < u64::MAX,
        ensures
            handle@ == old(ids).issued(),
            final(ids).issued() == old(ids).issued() + 1,
            final(self).commands() == seq![play_command(audio_source, None, true, handle)] + old(self).commands(),
            final(self).states() == old(self).states(),
    ;

    /// Play looped audio with an intro.
    fn play_looped_with_intro(
        &mut self,
        ids: &mut HandleMint,
        intro_audio_source: SourceId,
        looped_audio_source: SourceId,
    ) -> (handle: InstanceHandle)
        requires
            old(ids).issued() < u64::MAX,
        ensures
            handle@ == old(ids).issued(),
            final(ids).issued() == old(ids).issued() + 1,
            final(self).commands() == seq![
                play_command(looped_audio_source, Some(intro_audio_source), true, handle),
            ] + old(self).commands(),
            final(self).states() == old(self).states(),
    ;

    /// Stop all audio.
    fn stop(&mut self)
        ensures
            final(self).commands() == seq![AudioCommand::Stop] + old(self).commands(),
            final(self).states() == old(self).states(),
    ;

    /// Pause all audio.
    fn pause(&mut self)
        ensures
            final(self).commands() == seq![AudioCommand::Pause] + old(self).commands(),
            final(self).states() == old(self).states(),
    ;

    /// Resume all audio.
    fn resume(&mut self)
        ensures
            final(self).commands() == seq![AudioCommand::Resume] + old(self).commands(),
            final(self).states() == old(self).states(),
    ;

    /// Set the volume. The default is kira's full volume.
    fn set_volume(&mut self, volume: Volume)
        ensures
            final(self).commands() == seq![AudioCommand::SetVolume(volume)] + old(self).commands(),
            final(self).states() == old(self).states(),
    ;

    /// Set the panning. The default is the centre; kira counts from hard
    /// left at zero to hard right at one.
    fn set_panning(&mut self, panning: PanningControlBuilder)
        ensures
            final(self).commands() == seq![AudioCommand::SetPanning(panning)] + old(self).commands(),
            final(self).states() == old(self).states(),
    ;

    /// Set the playback rate. The default is kira's normal speed.
    fn set_playback_rate(&mut self, playback_rate: PlaybackRate)
        ensures
            final(self).commands() == seq![AudioCommand::SetPlaybackRate(playback_rate)] + old(self).commands(),
            final(self).states() == old(self).states(),
    ;

    /// Get state for a playback instance.
    fn state(&self, instance_handle: InstanceHandle) -> (state: PlaybackState)
        ensures
            state == state_of(self.states(), self.commands(), instance_handle),
    ;
}

/// A channel's own data: the commands that wait and the states that the
/// audio output last published. Channels of both kinds are made of it.
pub struct DynamicAudioChannel {
    commands: CommandQueue,
    states: HashMap<u64, PlaybackState>,
}

impl Default for DynamicAudioChannel {
    fn default() -> (channel: DynamicAudioChannel)
        ensures
            channel.commands() == Seq::<AudioCommand>::empty(),
            channel.states() == Map::<u64, PlaybackState>::empty(),
    {
        DynamicAudioChannel { commands: CommandQueue::new(), states: HashMap::new() }
    }
}

impl DynamicAudioChannel {
    /// How many commands wait.
    pub fn pending(&self) -> (pending: usize)
        ensures
            pending == self.commands().len(),
    {
        self.commands.len()
    }

    /// Takes the oldest command out of the queue, if there is one.
    pub fn take_oldest(&mut self) -> (command: Option<AudioCommand>)
        ensures
            final(self).states() == old(self).states(),
            match command {
                Some(c) => old(self).commands().len() > 0 && c == old(self).commands().last()
                    && final(self).commands() == old(self).commands().drop_last(),
                None => old(self).commands().len() == 0 && final(self).commands() == old(self).commands(),
            },
    {
        self.commands.take_oldest()
    }

    /// Ends the attempt on `command`, which `take_oldest` handed out: it
    /// goes back in as the newest if the attempt asks for a retry, and is
    /// gone otherwise.
    pub fn settle(&mut self, command: AudioCommand, outcome: AudioCommandResult)
        ensures
            final(self).states() == old(self).states(),
            final(self).commands() == if outcome == AudioCommandResult::Retry {
                seq![command] + old(self).commands()
            } else {
                old(self).commands()
            },
    {
        self.commands.settle(command, outcome);
    }

    /// Replaces the published states by those of `snapshot`.
    pub fn publish(&mut self, snapshot: &Vec<(InstanceHandle, PlaybackState)>)
        ensures
            final(self).commands() == old(self).commands(),
            final(self).states() == published(snapshot@),
    {
        self.states.clear();
        let mut i: usize = 0;
        while i < snapshot.len()
            invariant
                i <= snapshot.len(),
                self.commands == old(self).commands,
                self.states@ == published(snapshot@.take(i as int)),
            decreases snapshot.len() - i,
        {
            let (handle, state) = snapshot[i];
            self.states.insert(handle.id(), state);
            proof {
                assert(snapshot@.take(i + 1).drop_last() == snapshot@.take(i as int));
            }
            i += 1;
        }
        proof {
            assert(snapshot@.take(snapshot.len() as int) == snapshot@);
        }
    }
}

impl AudioControl for DynamicAudioChannel {
    closed spec fn commands(&self) -> Seq<AudioCommand> {
        self.commands@
    }

    closed spec fn states(&self) -> Map<u64, PlaybackState> {
        self.states@
    }

    fn play(&mut self, ids: &mut HandleMint, audio_source: SourceId) -> (handle: InstanceHandle) {
        let instance_handle = InstanceHandle::new(ids);
        self.commands.enqueue(
            AudioCommand::Play(
                PlayAudioCommandArgs {
                    settings: PlayAudioSettings {
                        source: audio_source,
                        intro_source: None,
                        looped: false,
                    },
                    instance_handle,
                },
            ),
        );
        instance_handle
    }

    fn play_looped(&mut self, ids: &mut HandleMint, audio_source: SourceId) -> (handle:
        InstanceHandle) {
        let instance_handle = InstanceHandle::new(ids);
        self.commands.enqueue(
            AudioCommand::Play(
                PlayAudioCommandArgs {
                    settings: PlayAudioSettings {
                        source: audio_source,
                        intro_source: None,
                        looped: true,
                    },
                    instance_handle,
                },
            ),
        );
        instance_handle
    }

    fn play_looped_with_intro(
        &mut self,
        ids: &mut HandleMint,
        intro_audio_source: SourceId,
        looped_audio_source: SourceId,
    ) -> (handle: InstanceHandle) {
        let instance_handle = InstanceHandle::new(ids);
        self.commands.enqueue(
            AudioCommand::Play(
                PlayAudioCommandArgs {
                    settings: PlayAudioSettings {
                        source: looped_audio_source,
                        intro_source: Some(intro_audio_source),
                        looped: true,
                    },
                    instance_handle,
                },
            ),
        );
        instance_handle
    }

    fn stop(&mut self) {
        self.commands.enqueue(AudioCommand::Stop);
    }

    fn pause(&mut self) {
        self.commands.enqueue(AudioCommand::Pause);
    }

    fn resume(&mut self) {
        self.commands.enqueue(AudioCommand::Resume);
    }

    fn set_volume(&mut self, volume: Volume) {
        self.commands.enqueue(AudioCommand::SetVolume(volume));
    }

    fn set_panning(&mut self, panning: PanningControlBuilder) {
        self.commands.enqueue(AudioCommand::SetPanning(panning));
    }

    fn set_playback_rate(&mut self, playback_rate: PlaybackRate) {
        self.commands.enqueue(AudioCommand::SetPlaybackRate(playback_rate));
    }

    fn state(&self, instance_handle: InstanceHandle) -> (state: PlaybackState) {
        match self.states.get(&instance_handle.id()) {
            Some(state) => *state,
            None => {
                let mut i: usize = 0;
                while i < self.commands.len()
                    invariant
                        i <= self.commands@.len(),
                        !self.states@.contains_key(instance_handle@),
                        forall|k: int|
                            0 <= k < i ==> !plays(#[trigger] self.commands@[k], instance_handle),
                    decreases self.commands@.len() - i,
                {
                    match self.commands.get(i) {
                        AudioCommand::Play(args) => {
                            if args.instance_handle.id() == instance_handle.id() {
                                assert(plays(self.commands@[i as int], instance_handle));
                                return PlaybackState::Queued;
                            }
                        },
                        _ => {},
                    }
                    i += 1;
                }
                PlaybackState::Stopped
            },
        }
    }
}

/// The channels that were made under a name while the program runs, in the
/// order in which their names came in.
pub struct DynamicAudioChannels {
    names: Vec<String>,
    channels: Vec<DynamicAudioChannel>,
}

impl Default for DynamicAudioChannels {
    fn default() -> (registry: DynamicAudioChannels)
        ensures
            registry.wf(),
            registry.names() == Seq::<Seq<char>>::empty(),
    {
        DynamicAudioChannels { names: Vec::new(), channels: Vec::new() }
    }
}

impl DynamicAudioChannels {
    /// The names of the channels, in registry order.
    pub closed spec fn names(&self) -> Seq<Seq<char>> {
        self.names@.map_values(|name: String| name@)
    }

    /// The channels, each at the place of its name in `names`.
    pub closed spec fn channels(&self) -> Seq<DynamicAudioChannel> {
        self.channels@
    }

    /// Every name stands once and has its channel.
    pub open spec fn wf(&self) -> bool {
        &&& self.names().no_duplicates()
        &&& self.names().len() == self.channels().len()
    }

    /// Whether a channel stands under `key`.
    pub open spec fn contains(&self, key: Seq<char>) -> bool {
        self.names().contains(key)
    }

    /// The channel that stands under `key`.
    pub open spec fn spec_channel(&self, key: Seq<char>) -> DynamicAudioChannel
        recommends
            self.contains(key),
    {
        self.channels()[self.names().index_of(key)]
    }

    /// Where `key` stands in the registry, if it does.
    fn find(&self, key: &String) -> (place: Option<usize>)
        requires
            self.wf(),
        ensures
            match place {
                Some(i) => i < self.names().len() && self.names()[i as int] == key@
                    && self.names().index_of(key@) == i,
                None => !self.contains(key@),
            },
    {
        let mut i: usize = 0;
        while i < self.names.len()
            invariant
                self.wf(),
                i <= self.names@.len(),
                forall|k: int| 0 <= k < i ==> self.names()[k] != key@,
            decreases self.names@.len() - i,
        {
            if self.names[i] == *key {
                proof {
                    assert(self.names()[i as int] == key@);
                    assert(self.names().contains(key@));
                    let found = self.names().index_of(key@);
                    assert(self.names()[found] == key@);
                }
                return Some(i);
            }
            i += 1;
        }
        None
    }

    /// How many channels there are.
    pub fn len(&self) -> (len: usize)
        requires
            self.wf(),
        ensures
            len == self.names().len(),
    {
        self.names.len()
    }

    /// The name at place `index` of the registry.
    pub fn name_at(&self, index: usize) -> (name: &String)
        requires
            self.wf(),
            index < self.names().len(),
        ensures
            name@ == self.names()[index as int],
    {
        &self.names[index]
    }

    /// The channel at place `index` of the registry, to work on.
    pub fn channel_at_mut(&mut self, index: usize) -> (channel: &mut DynamicAudioChannel)
        requires
            old(self).wf(),
            index < old(self).names().len(),
        ensures
            *channel == old(self).channels()[index as int],
            final(self).wf(),
            final(self).names() == old(self).names(),
            final(self).channels() == old(self).channels().update(index as int, *final(channel)),
    {
        &mut self.channels[index]
    }

    /// Makes a fresh, empty channel under `key` and hands it out to work
    /// on. A channel that stood under `key` is thrown away with all that
    /// waited in it.
    pub fn create_channel(&mut self, key: &str) -> (channel: &mut DynamicAudioChannel)
        requires
            old(self).wf(),
        ensures
            channel.commands() == Seq::<AudioCommand>::empty(),
            channel.states() == Map::<u64, PlaybackState>::empty(),
            final(self).wf(),
            final(self).contains(key@),
            final(self).spec_channel(key@) == *final(channel),
            final(self).names() == if old(self).contains(key@) {
                old(self).names()
            } else {
                old(self).names().push(key@)
            },
            forall|other: Seq<char>|
                other != key@ && old(self).contains(other) ==> final(self).spec_channel(other)
                    == old(self).spec_channel(other),
    {
        let name = key.to_owned();
        let place = match self.find(&name) {
            Some(i) => {
                self.channels.set(i, DynamicAudioChannel::default());
                i
            },
            None => {
                let end: usize = self.names.len();
                self.names.push(name);
                self.channels.push(DynamicAudioChannel::default());
                proof {
                    assert(self.names() == old(self).names().push(key@));
                    assert(self.names().index_of(key@) == end) by {
                        let found = self.names().index_of(key@);
                        assert(self.names()[end as int] == key@);
                        assert(self.names()[found] == key@);
                    }
                }
                end
            },
        };
        proof {
            let names_now = self.names();
            assert(names_now[place as int] == key@);
            assert(names_now.contains(key@));
            assert(names_now.index_of(key@) == place);
            assert forall|other: Seq<char>| other != key@ && old(self).contains(other) implies {
                &&& names_now.index_of(other) == old(self).names().index_of(other)
                &&& names_now.index_of(other) != place
                &&& 0 <= names_now.index_of(other) < old(self).names().len()
            } by {
                let at = old(self).names().index_of(other);
                assert(old(self).names()[at] == other);
                assert(names_now[at] == other);
                let now = names_now.index_of(other);
                assert(names_now[now] == other);
            }
        }
        &mut self.channels[place]
    }

    /// Whether a channel stands under `key`.
    pub fn contains_channel(&self, key: &str) -> (found: bool)
        requires
            self.wf(),
        ensures
            found == self.contains(key@),
    {
        let name = key.to_owned();
        self.find(&name).is_some()
    }

    /// The channel that stands under `key`. Asking for a channel that was
    /// never made, or was removed, is a fault of the caller's.
    pub fn channel(&self, key: &str) -> (channel: &DynamicAudioChannel)
        requires
            self.wf(),
            self.contains(key@),
        ensures
            *channel == self.spec_channel(key@),
    {
        let name = key.to_owned();
        let place = self.find(&name);
        &self.channels[place.unwrap()]
    }

    /// The channel that stands under `key`, to queue commands on.
    pub fn channel_mut(&mut self, key: &str) -> (channel: &mut DynamicAudioChannel)
        requires
            old(self).wf(),
            old(self).contains(key@),
        ensures
            *channel == old(self).spec_channel(key@),
            final(self).wf(),
            final(self).names() == old(self).names(),
            final(self).channels() == old(self).channels().update(
                old(self).names().index_of(key@),
                *final(channel),
            ),
    {
        let name = key.to_owned();
        let place = self.find(&name);
        &mut self.channels[place.unwrap()]
    }

    /// Queues a stop on the channel under `key` and then removes the
    /// channel, its queue and its states. The stop leaves with the queue,
    /// before any tick could run it.
    pub fn remove_channel(&mut self, key: &str)
        requires
            old(self).wf(),
            old(self).contains(key@),
        ensures
            final(self).wf(),
            !final(self).contains(key@),
            final(self).names() == old(self).names().remove(old(self).names().index_of(key@)),
            forall|other: Seq<char>|
                other != key@ && old(self).contains(other) ==> final(self).contains(other)
                    && final(self).spec_channel(other) == old(self).spec_channel(other),
    {
        let name = key.to_owned();
        let place: usize = self.find(&name).unwrap();
        self.channels[place].stop();
        self.names.remove(place);
        self.channels.remove(place);
        proof {
            let before = old(self).names();
            let after = self.names();
            assert(after == before.remove(place as int));
            assert forall|other: Seq<char>| other != key@ && old(self).contains(other) implies
                self.contains(other) && self.spec_channel(other) == old(self).spec_channel(
                other,
            ) by {
                let at = before.index_of(other);
                assert(before[at] == other);
                let moved = if at < place {
                    at
                } else {
                    at - 1
                };
                assert(after[moved] == other);
                let now = after.index_of(other);
                assert(after[now] == other);
                assert(now == moved);
            }
            assert(!after.contains(key@)) by {
                if after.contains(key@) {
                    let now = after.index_of(key@);
                    assert(after[now] == key@);
                    let back = if now < place {
                        now
                    } else {
                        now + 1
                    };
                    assert(before[back] == key@);
                }
            }
        }
    }
}

} // verus!
