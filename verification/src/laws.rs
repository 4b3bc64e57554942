//! What holds of the channels and the audio output over whole ticks.

use vstd::prelude::*;
use kira::track::effect::panning_control::PanningControlBuilder;
use kira::PlaybackRate;
use kira::Volume;
use crate::audio_output::all_possible;
use crate::audio_output::drained;
use crate::audio_output::goes_on;
use crate::audio_output::lemma_survivors_next;
use crate::audio_output::paired;
use crate::audio_output::reported;
use crate::audio_output::snapshot_of;
use crate::audio_output::survivors;
use crate::audio_output::thinned;
use crate::backend::SoundState;
use crate::audio_output::possible;
use crate::audio_output::run;
use crate::audio_output::ChannelView;
use crate::channel::is_queued;
use crate::channel::plays;
use crate::channel::published;
use crate::channel::state_of;
use crate::command::AudioCommand;
use crate::command::AudioCommandResult;
use crate::instance::InstanceHandle;
use crate::instance::PlaybackState;
use crate::queue::asks_retry;
use crate::queue::attempts;
use crate::queue::enqueued;
use crate::queue::execution_order;
use crate::queue::lemma_retained_newest;
use crate::queue::retained;
use crate::settings::panning_of;
use crate::settings::playback_rate_of;
use crate::settings::volume_of;

verus! {

/// The volume of the last command of `commands` that sets one.
pub open spec fn last_volume(commands: Seq<AudioCommand>) -> Option<Volume>
    decreases commands.len(),
{
    if commands.len() == 0 {
        None
    } else {
        match commands.last() {
            AudioCommand::SetVolume(volume) => Some(volume),
            _ => last_volume(commands.drop_last()),
        }
    }
}

/// The panning of the last command of `commands` that sets one.
pub open spec fn last_panning(commands: Seq<AudioCommand>) -> Option<PanningControlBuilder>
    decreases commands.len(),
{
    if commands.len() == 0 {
        None
    } else {
        match commands.last() {
            AudioCommand::SetPanning(panning) => Some(panning),
            _ => last_panning(commands.drop_last()),
        }
    }
}

/// The playback rate of the last command of `commands` that sets one.
pub open spec fn last_playback_rate(commands: Seq<AudioCommand>) -> Option<PlaybackRate>
    decreases commands.len(),
{
    if commands.len() == 0 {
        None
    } else {
        match commands.last() {
            AudioCommand::SetPlaybackRate(playback_rate) => Some(playback_rate),
            _ => last_playback_rate(commands.drop_last()),
        }
    }
}

/// `first` if it holds a value, else `second`.
pub open spec fn or_else<T>(first: Option<T>, second: Option<T>) -> Option<T> {
    match first {
        Some(_) => first,
        None => second,
    }
}

/// The outcomes of a shorter run are possible where those of the whole run
/// are.
proof fn lemma_possible_prefix(
    enabled: bool,
    before: ChannelView,
    loaded: Set<u64>,
    commands: Seq<AudioCommand>,
    outcomes: Seq<AudioCommandResult>,
)
    requires
        commands.len() == outcomes.len(),
        commands.len() > 0,
        all_possible(enabled, before, loaded, commands, outcomes),
    ensures
        all_possible(enabled, before, loaded, commands.drop_last(), outcomes.drop_last()),
        possible(
            enabled,
            run(before, commands.drop_last(), outcomes.drop_last()),
            loaded,
            commands.last(),
            outcomes.last(),
        ),
{
    let n = commands.len() - 1;
    assert(commands.take(n) =~= commands.drop_last());
    assert(outcomes.take(n) =~= outcomes.drop_last());
    assert(possible(
        enabled,
        run(before, commands.take(n), outcomes.take(n)),
        loaded,
        commands[n],
        outcomes[n],
    ));
    assert forall|i: int| 0 <= i < n implies possible(
        enabled,
        #[trigger] run(before, commands.drop_last().take(i), outcomes.drop_last().take(i)),
        loaded,
        commands.drop_last()[i],
        outcomes.drop_last()[i],
    ) by {
        assert(commands.drop_last().take(i) =~= commands.take(i));
        assert(outcomes.drop_last().take(i) =~= outcomes.take(i));
        assert(possible(
            enabled,
            run(before, commands.take(i), outcomes.take(i)),
            loaded,
            commands[i],
            outcomes[i],
        ));
    }
}

/// After a tick on an output with a manager, each level of a channel is the
/// one that the last command for that level set, counted in the order in
/// which the commands were submitted; a level for which no command came is
/// as it was. Commands that set levels are never put off, so none of them
/// is left for a later tick.
pub proof fn lemma_levels_follow_last_command(
    before: ChannelView,
    loaded: Set<u64>,
    commands: Seq<AudioCommand>,
    outcomes: Seq<AudioCommandResult>,
)
    requires
        commands.len() == outcomes.len(),
        all_possible(true, before, loaded, commands, outcomes),
    ensures
        volume_of(run(before, commands, outcomes).settings) == or_else(
            last_volume(commands),
            volume_of(before.settings),
        ),
        panning_of(run(before, commands, outcomes).settings) == or_else(
            last_panning(commands),
            panning_of(before.settings),
        ),
        playback_rate_of(run(before, commands, outcomes).settings) == or_else(
            last_playback_rate(commands),
            playback_rate_of(before.settings),
        ),
    decreases commands.len(),
{
    if commands.len() > 0 {
        lemma_possible_prefix(true, before, loaded, commands, outcomes);
        lemma_levels_follow_last_command(
            before,
            loaded,
            commands.drop_last(),
            outcomes.drop_last(),
        );
    }
}

/// After a tick on a channel of an output with a manager, each level of
/// the channel is the one that the last command for that level in the
/// channel's queue set, counted from the oldest; a level for which the
/// queue held no command is as it was.
pub proof fn lemma_tick_sets_levels(
    loaded: Set<u64>,
    before: ChannelView,
    after: ChannelView,
    queue_before: Seq<AudioCommand>,
    queue_after: Seq<AudioCommand>,
    outcomes: Seq<AudioCommandResult>,
)
    requires
        drained(true, loaded, before, after, queue_before, queue_after, outcomes),
    ensures
        volume_of(after.settings) == or_else(
            last_volume(execution_order(queue_before)),
            volume_of(before.settings),
        ),
        panning_of(after.settings) == or_else(
            last_panning(execution_order(queue_before)),
            panning_of(before.settings),
        ),
        playback_rate_of(after.settings) == or_else(
            last_playback_rate(execution_order(queue_before)),
            playback_rate_of(before.settings),
        ),
{
    lemma_levels_follow_last_command(before, loaded, execution_order(queue_before), outcomes);
}

/// The commands that set a level all leave the queue in the tick that
/// finds them there: what a drain keeps for later are plays and stops.
pub proof fn lemma_only_plays_and_stops_wait(
    enabled: bool,
    before: ChannelView,
    loaded: Set<u64>,
    queue: Seq<AudioCommand>,
    outcomes: Seq<AudioCommandResult>,
    place: int,
)
    requires
        queue.len() == outcomes.len(),
        all_possible(enabled, before, loaded, execution_order(queue), outcomes),
        0 <= place < retained(queue, outcomes).len(),
    ensures
        retained(queue, outcomes)[place] is Play || retained(queue, outcomes)[place] is Stop,
{
    let pred = |a: (AudioCommand, AudioCommandResult)| asks_retry(a);
    let tried = attempts(queue, outcomes);
    let kept = tried.filter(pred);
    assert(kept.contains(kept[place]));
    tried.lemma_filter_contains_rev(pred, kept[place]);
    let k = choose|k: int| 0 <= k < tried.len() && tried[k] == kept[place];
    tried.lemma_filter_pred(pred, place);
    let i = queue.len() - 1 - k;
    assert(execution_order(queue)[i] == queue[k]);
    assert(possible(
        enabled,
        run(before, execution_order(queue).take(i), outcomes.take(i)),
        loaded,
        execution_order(queue)[i],
        outcomes[i],
    ));
}

/// A play command whose sound is not loaded stays in the queue over a
/// tick as it is, handle and all, and its channel says `Queued` of the
/// handle as long as no state has been published for it.
pub proof fn lemma_unloaded_play_waits(
    before: ChannelView,
    loaded: Set<u64>,
    queue: Seq<AudioCommand>,
    outcomes: Seq<AudioCommandResult>,
    states: Map<u64, PlaybackState>,
    place: int,
)
    requires
        queue.len() == outcomes.len(),
        all_possible(true, before, loaded, execution_order(queue), outcomes),
        0 <= place < queue.len(),
        queue[place] matches AudioCommand::Play(args) && !loaded.contains(args.settings.source.id),
    ensures
        outcomes[queue.len() - 1 - place] == AudioCommandResult::Retry,
        retained(queue, outcomes).contains(queue[place]),
        queue[place] matches AudioCommand::Play(args) && (!states.contains_key(
            args.instance_handle@,
        ) ==> state_of(states, retained(queue, outcomes), args.instance_handle)
            == PlaybackState::Queued),
{
    let pred = |a: (AudioCommand, AudioCommandResult)| asks_retry(a);
    let first = |a: (AudioCommand, AudioCommandResult)| a.0;
    let tried = attempts(queue, outcomes);
    let i = queue.len() - 1 - place;
    assert(execution_order(queue)[i] == queue[place]);
    assert(possible(
        true,
        run(before, execution_order(queue).take(i), outcomes.take(i)),
        loaded,
        execution_order(queue)[i],
        outcomes[i],
    ));
    assert(tried[place] == (queue[place], AudioCommandResult::Retry));
    tried.lemma_filter_contains(pred, place);
    let kept = tried.filter(pred);
    let at = choose|at: int| 0 <= at < kept.len() && kept[at] == tried[place];
    assert(kept.map_values(first)[at] == queue[place]);
    assert(retained(queue, outcomes).contains(queue[place]));
    match queue[place] {
        AudioCommand::Play(args) => {
            assert(plays(retained(queue, outcomes)[at], args.instance_handle));
        },
        _ => {},
    }
}

/// A play command whose sound is loaded leaves the queue in the tick that
/// finds it, on an output with a manager; if the attempt is done, its
/// instance plays on the channel from then on in this tick.
pub proof fn lemma_loaded_play_starts(
    before: ChannelView,
    loaded: Set<u64>,
    commands: Seq<AudioCommand>,
    outcomes: Seq<AudioCommandResult>,
    place: int,
)
    requires
        commands.len() == outcomes.len(),
        all_possible(true, before, loaded, commands, outcomes),
        0 <= place < commands.len(),
        commands[place] matches AudioCommand::Play(args) && loaded.contains(
            args.settings.source.id,
        ),
    ensures
        outcomes[place] != AudioCommandResult::Retry,
        commands[place] matches AudioCommand::Play(args) && (outcomes[place]
            == AudioCommandResult::Done ==> run(before, commands, outcomes).instances.contains(
            args.instance_handle,
        )),
    decreases commands.len(),
{
    lemma_possible_prefix(true, before, loaded, commands, outcomes);
    let earlier = run(before, commands.drop_last(), outcomes.drop_last());
    if place == commands.len() - 1 {
        if outcomes[place] == AudioCommandResult::Done {
            match commands[place] {
                AudioCommand::Play(args) => {
                    let now = earlier.instances.push(args.instance_handle);
                    assert(now[now.len() - 1] == args.instance_handle);
                },
                _ => {},
            }
        }
    } else {
        lemma_loaded_play_starts(
            before,
            loaded,
            commands.drop_last(),
            outcomes.drop_last(),
            place,
        );
        match commands[place] {
            AudioCommand::Play(args) => {
                if outcomes[place] == AudioCommandResult::Done {
                    let at = choose|at: int|
                        0 <= at < earlier.instances.len() && earlier.instances[at]
                            == args.instance_handle;
                    let after = run(before, commands, outcomes).instances;
                    assert(after[at] == args.instance_handle);
                }
            },
            _ => {},
        }
    }
}

/// A handle that no state was published for and no play command waits for
/// is said to be stopped.
pub proof fn lemma_unknown_handle_is_stopped(
    states: Map<u64, PlaybackState>,
    commands: Seq<AudioCommand>,
    handle: InstanceHandle,
)
    requires
        !states.contains_key(handle@),
        forall|i: int| 0 <= i < commands.len() ==> !plays(#[trigger] commands[i], handle),
    ensures
        state_of(states, commands, handle) == PlaybackState::Stopped,
{
}

/// Commands that are submitted after a drain are attempted, at the next
/// drain, after everything that the first drain put back, and in the order
/// in which they were submitted.
pub proof fn lemma_retried_run_before_new(queue: Seq<AudioCommand>, submitted: Seq<AudioCommand>)
    ensures
        execution_order(enqueued(queue, submitted)) == execution_order(queue) + submitted,
{
    let all = enqueued(queue, submitted);
    assert(execution_order(all) =~= execution_order(queue) + submitted);
}

/// Whether `places` picks, in rising order, the commands of `queue` whose
/// attempt asked for a retry, all of them.
pub open spec fn picks_retried(
    queue: Seq<AudioCommand>,
    outcomes: Seq<AudioCommandResult>,
    places: Seq<int>,
) -> bool {
    &&& forall|p: int|
        0 <= p < places.len() ==> 0 <= #[trigger] places[p] < queue.len() && outcomes[queue.len()
            - 1 - places[p]] == AudioCommandResult::Retry
    &&& forall|p: int, q: int| 0 <= p < q < places.len() ==> places[p] < places[q]
    &&& forall|k: int|
        0 <= k < queue.len() && #[trigger] outcomes[queue.len() - 1 - k]
            == AudioCommandResult::Retry ==> places.contains(k)
}

/// What a drain leaves in the queue are exactly the commands whose attempt
/// asked for a retry, each once, in the order in which they stood: so the
/// next drain attempts them in the order in which they were submitted.
pub proof fn lemma_retained_keeps_order(
    queue: Seq<AudioCommand>,
    outcomes: Seq<AudioCommandResult>,
) -> (places: Seq<int>)
    requires
        queue.len() == outcomes.len(),
    ensures
        picks_retried(queue, outcomes, places),
        places.len() == retained(queue, outcomes).len(),
        forall|p: int|
            0 <= p < places.len() ==> retained(queue, outcomes)[p] == queue[#[trigger] places[p]],
    decreases queue.len(),
{
    if queue.len() == 0 {
        assert(attempts(queue, outcomes) =~= Seq::empty());
        reveal(Seq::filter);
        assert(retained(queue, outcomes) =~= Seq::empty());
        Seq::empty()
    } else {
        let n = queue.len() - 1;
        let rest = queue.drop_first();
        let earlier = outcomes.drop_last();
        let rest_places = lemma_retained_keeps_order(rest, earlier);
        assert(queue =~= seq![queue[0]] + rest);
        assert(outcomes =~= earlier.push(outcomes[n]));
        lemma_retained_newest(rest, earlier, queue[0], outcomes[n]);
        let moved = rest_places.map_values(|k: int| k + 1);
        let places = if outcomes[n] == AudioCommandResult::Retry {
            seq![0int] + moved
        } else {
            moved
        };
        let shift: int = if outcomes[n] == AudioCommandResult::Retry {
            1
        } else {
            0
        };
        assert forall|p: int| 0 <= p < places.len() implies 0 <= #[trigger] places[p] < queue.len()
            && outcomes[queue.len() - 1 - places[p]] == AudioCommandResult::Retry
            && retained(queue, outcomes)[p] == queue[places[p]] by {
            if p >= shift {
                let r = p - shift;
                assert(places[p] == rest_places[r] + 1);
                assert(0 <= rest_places[r] < rest.len());
                assert(earlier[rest.len() - 1 - rest_places[r]] == AudioCommandResult::Retry);
                assert(retained(rest, earlier)[r] == rest[rest_places[r]]);
            }
        }
        assert forall|p: int, q: int| 0 <= p < q < places.len() implies places[p] < places[q] by {
            if p >= shift {
                assert(rest_places[p - shift] < rest_places[q - shift]);
            } else {
                assert(places[q] == rest_places[q - shift] + 1);
                assert(0 <= rest_places[q - shift]);
            }
        }
        assert forall|k: int|
            0 <= k < queue.len() && #[trigger] outcomes[queue.len() - 1 - k]
                == AudioCommandResult::Retry implies places.contains(k) by {
            if k == 0 {
                assert(places[0] == 0);
            } else {
                assert(earlier[rest.len() - 1 - (k - 1)] == AudioCommandResult::Retry);
                assert(rest_places.contains(k - 1));
                let r = choose|r: int| 0 <= r < rest_places.len() && rest_places[r] == k - 1;
                assert(places[r + shift] == k);
            }
        }
        places
    }
}

/// The states that a channel shows after a snapshot was published are
/// those of the handles in the snapshot and of no other.
pub proof fn lemma_published_handles(
    snapshot: Seq<(InstanceHandle, PlaybackState)>,
    id: u64,
)
    ensures
        published(snapshot).contains_key(id) <==> exists|i: int|
            0 <= i < snapshot.len() && (#[trigger] snapshot[i]).0@ == id,
    decreases snapshot.len(),
{
    if snapshot.len() > 0 {
        lemma_published_handles(snapshot.drop_last(), id);
        let last = snapshot.len() - 1;
        if published(snapshot).contains_key(id) {
            if snapshot[last].0@ != id {
                let i = choose|i: int|
                    0 <= i < snapshot.drop_last().len() && (#[trigger] snapshot.drop_last()[i]).0@
                        == id;
                assert(snapshot[i].0@ == id);
            }
        }
        if exists|i: int| 0 <= i < snapshot.len() && (#[trigger] snapshot[i]).0@ == id {
            let i = choose|i: int| 0 <= i < snapshot.len() && (#[trigger] snapshot[i]).0@ == id;
            if i < last {
                assert(snapshot.drop_last()[i].0@ == id);
            }
        }
    }
}

/// Whether `command` is the one play command for `handle` that waits in
/// `queue`.
pub open spec fn waits_once(
    queue: Seq<AudioCommand>,
    command: AudioCommand,
    handle: InstanceHandle,
) -> bool {
    exists|place: int|
        0 <= place < queue.len() && #[trigger] queue[place] == command && plays(command, handle)
            && forall|other: int|
            0 <= other < queue.len() && other != place ==> !plays(#[trigger] queue[other], handle)
}

/// Whether an instance with `handle` is among `instances`.
pub open spec fn is_live(instances: Seq<InstanceHandle>, handle: InstanceHandle) -> bool {
    exists|i: int| 0 <= i < instances.len() && (#[trigger] instances[i])@ == handle@
}

/// Whether `handle` is waited for and nothing else: its one play command
/// waits in `queue`, no instance of it plays, and no state is shown for it.
pub open spec fn only_waits(
    queue: Seq<AudioCommand>,
    instances: Seq<InstanceHandle>,
    states: Map<u64, PlaybackState>,
    command: AudioCommand,
    handle: InstanceHandle,
) -> bool {
    &&& waits_once(queue, command, handle)
    &&& !is_live(instances, handle)
    &&& !states.contains_key(handle@)
}

/// A handle that is only waited for is said to be queued.
pub proof fn lemma_waiting_is_queued(
    queue: Seq<AudioCommand>,
    instances: Seq<InstanceHandle>,
    states: Map<u64, PlaybackState>,
    command: AudioCommand,
    handle: InstanceHandle,
)
    requires
        only_waits(queue, instances, states, command, handle),
    ensures
        state_of(states, queue, handle) == PlaybackState::Queued,
{
    let place = choose|place: int|
        0 <= place < queue.len() && #[trigger] queue[place] == command && plays(command, handle);
    assert(plays(queue[place], handle));
}

/// A command that is queued behind a waiting play, and is not itself a
/// play for the same handle, leaves the play the only one for its handle.
/// So does every play that a channel queues with a handle that it has just
/// minted, once the waiting handle came from the same mint.
pub proof fn lemma_enqueue_keeps_waiting(
    queue: Seq<AudioCommand>,
    command: AudioCommand,
    handle: InstanceHandle,
    submitted: AudioCommand,
)
    requires
        waits_once(queue, command, handle),
        !plays(submitted, handle),
    ensures
        waits_once(seq![submitted] + queue, command, handle),
{
    let place = choose|place: int|
        0 <= place < queue.len() && #[trigger] queue[place] == command && plays(command, handle)
            && forall|other: int|
            0 <= other < queue.len() && other != place ==> !plays(#[trigger] queue[other], handle);
    let longer = seq![submitted] + queue;
    assert(longer[place + 1] == command);
    assert forall|other: int| 0 <= other < longer.len() && other != place + 1 implies !plays(
        #[trigger] longer[other],
        handle,
    ) by {
        if other > 0 {
            assert(longer[other] == queue[other - 1]);
        }
    }
}

/// A run starts no instance for a handle whose plays are not done in it.
pub proof fn lemma_run_starts_only_done_plays(
    before: ChannelView,
    commands: Seq<AudioCommand>,
    outcomes: Seq<AudioCommandResult>,
    handle: InstanceHandle,
)
    requires
        commands.len() == outcomes.len(),
        !is_live(before.instances, handle),
        forall|i: int|
            0 <= i < commands.len() && plays(#[trigger] commands[i], handle) ==> outcomes[i]
                != AudioCommandResult::Done,
    ensures
        !is_live(run(before, commands, outcomes).instances, handle),
    decreases commands.len(),
{
    if commands.len() > 0 {
        let last = commands.len() - 1;
        assert forall|i: int|
            0 <= i < commands.drop_last().len() && plays(
                #[trigger] commands.drop_last()[i],
                handle,
            ) implies outcomes.drop_last()[i] != AudioCommandResult::Done by {
            assert(commands[i] == commands.drop_last()[i]);
        }
        lemma_run_starts_only_done_plays(
            before,
            commands.drop_last(),
            outcomes.drop_last(),
            handle,
        );
        let earlier = run(before, commands.drop_last(), outcomes.drop_last()).instances;
        let after = run(before, commands, outcomes).instances;
        if is_live(after, handle) {
            let i = choose|i: int| 0 <= i < after.len() && (#[trigger] after[i])@ == handle@;
            if i < earlier.len() {
                assert(earlier[i]@ == handle@);
            } else {
                assert(plays(commands[last], handle));
            }
        }
    }
}

/// A tick on an output with a manager leaves a play that waits for a
/// sound that is not loaded as it is: afterwards the same command is the
/// one play for its handle in the queue, and no instance of the handle
/// plays.
pub proof fn lemma_tick_keeps_unloaded_play(
    loaded: Set<u64>,
    before: ChannelView,
    after: ChannelView,
    queue_before: Seq<AudioCommand>,
    queue_after: Seq<AudioCommand>,
    outcomes: Seq<AudioCommandResult>,
    command: AudioCommand,
    handle: InstanceHandle,
)
    requires
        drained(true, loaded, before, after, queue_before, queue_after, outcomes),
        waits_once(queue_before, command, handle),
        command matches AudioCommand::Play(args) && !loaded.contains(args.settings.source.id),
        !is_live(before.instances, handle),
    ensures
        waits_once(queue_after, command, handle),
        !is_live(after.instances, handle),
{
    let place = choose|place: int|
        0 <= place < queue_before.len() && #[trigger] queue_before[place] == command && plays(
            command,
            handle,
        ) && forall|other: int|
            0 <= other < queue_before.len() && other != place ==> !plays(
                #[trigger] queue_before[other],
                handle,
            );
    let order = execution_order(queue_before);
    let turn = queue_before.len() - 1 - place;
    lemma_unloaded_play_waits(before, loaded, queue_before, outcomes, Map::empty(), place);
    let places = lemma_retained_keeps_order(queue_before, outcomes);
    assert(places.contains(place));
    let kept = choose|kept: int| 0 <= kept < places.len() && places[kept] == place;
    assert(queue_after[kept] == command);
    assert forall|other: int| 0 <= other < queue_after.len() && other != kept implies !plays(
        #[trigger] queue_after[other],
        handle,
    ) by {
        assert(queue_after[other] == queue_before[places[other]]);
        if other < kept {
            assert(places[other] < places[kept]);
        } else {
            assert(places[kept] < places[other]);
        }
    }
    assert forall|i: int| 0 <= i < order.len() && plays(#[trigger] order[i], handle) implies outcomes[i]
        != AudioCommandResult::Done by {
        assert(order[i] == queue_before[queue_before.len() - 1 - i]);
        assert(i == turn);
    }
    lemma_run_starts_only_done_plays(before, order, outcomes, handle);
}

/// Forgetting the instances that have stopped makes no instance play that
/// did not play before.
pub proof fn lemma_prune_starts_nothing(
    before: Seq<InstanceHandle>,
    after: Seq<InstanceHandle>,
    handle: InstanceHandle,
)
    requires
        thinned(before, after),
        !is_live(before, handle),
    ensures
        !is_live(after, handle),
{
    let states = choose|states: Seq<SoundState>|
        states.len() == before.len() && after == #[trigger] survivors(before, states);
    let goes = |r: (InstanceHandle, SoundState)| goes_on(r);
    let all = reported(before, states);
    let kept = all.filter(goes);
    if is_live(after, handle) {
        let i = choose|i: int| 0 <= i < after.len() && (#[trigger] after[i])@ == handle@;
        assert(kept.contains(kept[i]));
        all.lemma_filter_contains_rev(goes, kept[i]);
        let k = choose|k: int| 0 <= k < all.len() && all[k] == kept[i];
        assert(before[k]@ == handle@);
    }
}

/// A channel shows no state for a handle of which no instance plays when
/// the states are published.
pub proof fn lemma_publish_shows_only_live(
    instances: Seq<InstanceHandle>,
    snapshot: Seq<(InstanceHandle, PlaybackState)>,
    handle: InstanceHandle,
)
    requires
        snapshot_of(instances, snapshot),
        !is_live(instances, handle),
    ensures
        !published(snapshot).contains_key(handle@),
{
    lemma_published_handles(snapshot, handle@);
    if published(snapshot).contains_key(handle@) {
        let i = choose|i: int| 0 <= i < snapshot.len() && (#[trigger] snapshot[i]).0@ == handle@;
        assert(instances[i]@ == handle@);
    }
}

/// A play whose sound is not loaded goes on waiting over a whole tick, on
/// an output with a manager: if its handle is only waited for before, then
/// after the drain, the forgetting of what has stopped and the publishing
/// of the states it is only waited for, by the same command, and its
/// channel says `Queued` of it. This holds tick after tick for as long as
/// the sound is not loaded, whatever else is queued in between that is not
/// a play for the same handle.
pub proof fn lemma_unloaded_play_waits_over_a_tick(
    loaded: Set<u64>,
    before: ChannelView,
    drained_to: ChannelView,
    pruned_to: ChannelView,
    queue_before: Seq<AudioCommand>,
    queue_after: Seq<AudioCommand>,
    outcomes: Seq<AudioCommandResult>,
    states_before: Map<u64, PlaybackState>,
    snapshot: Seq<(InstanceHandle, PlaybackState)>,
    command: AudioCommand,
    handle: InstanceHandle,
)
    requires
        only_waits(queue_before, before.instances, states_before, command, handle),
        command matches AudioCommand::Play(args) && !loaded.contains(args.settings.source.id),
        drained(true, loaded, before, drained_to, queue_before, queue_after, outcomes),
        thinned(drained_to.instances, pruned_to.instances),
        snapshot_of(pruned_to.instances, snapshot),
    ensures
        only_waits(queue_after, pruned_to.instances, published(snapshot), command, handle),
        state_of(published(snapshot), queue_after, handle) == PlaybackState::Queued,
{
    lemma_tick_keeps_unloaded_play(
        loaded,
        before,
        drained_to,
        queue_before,
        queue_after,
        outcomes,
        command,
        handle,
    );
    lemma_prune_starts_nothing(drained_to.instances, pruned_to.instances, handle);
    lemma_publish_shows_only_live(pruned_to.instances, snapshot, handle);
    lemma_waiting_is_queued(queue_after, pruned_to.instances, published(snapshot), command, handle);
}

/// Whether exactly one instance with `handle` is among `instances`, at
/// `place`.
pub open spec fn live_once_at(
    instances: Seq<InstanceHandle>,
    handle: InstanceHandle,
    place: int,
) -> bool {
    &&& 0 <= place < instances.len()
    &&& instances[place]@ == handle@
    &&& forall|other: int|
        0 <= other < instances.len() && other != place ==> (#[trigger] instances[other])@
            != handle@
}

/// Whether exactly one instance with `handle` is among `instances`.
pub open spec fn live_once(instances: Seq<InstanceHandle>, handle: InstanceHandle) -> bool {
    exists|place: int| #[trigger] live_once_at(instances, handle, place)
}

/// Whether nothing is left of `handle`: no play for it waits, no instance
/// of it plays, and no state is shown for it.
pub open spec fn is_gone(
    queue: Seq<AudioCommand>,
    instances: Seq<InstanceHandle>,
    states: Map<u64, PlaybackState>,
    handle: InstanceHandle,
) -> bool {
    &&& !is_queued(queue, handle)
    &&& !is_live(instances, handle)
    &&& !states.contains_key(handle@)
}

/// A run in which at most one command plays for a handle starts at most
/// one instance of it.
pub proof fn lemma_run_starts_a_play_once(
    before: ChannelView,
    commands: Seq<AudioCommand>,
    outcomes: Seq<AudioCommandResult>,
    handle: InstanceHandle,
)
    requires
        commands.len() == outcomes.len(),
        !is_live(before.instances, handle),
        forall|i: int, j: int|
            0 <= i < commands.len() && 0 <= j < commands.len() && plays(
                #[trigger] commands[i],
                handle,
            ) && plays(#[trigger] commands[j], handle) ==> i == j,
    ensures
        is_live(run(before, commands, outcomes).instances, handle) ==> live_once(
            run(before, commands, outcomes).instances,
            handle,
        ),
    decreases commands.len(),
{
    if commands.len() > 0 {
        let last = commands.len() - 1;
        let shorter = commands.drop_last();
        let earlier = run(before, shorter, outcomes.drop_last()).instances;
        let after = run(before, commands, outcomes).instances;
        assert forall|i: int, j: int|
            0 <= i < shorter.len() && 0 <= j < shorter.len() && plays(
                #[trigger] shorter[i],
                handle,
            ) && plays(#[trigger] shorter[j], handle) implies i == j by {
            assert(commands[i] == shorter[i]);
            assert(commands[j] == shorter[j]);
        }
        lemma_run_starts_a_play_once(before, shorter, outcomes.drop_last(), handle);
        if plays(commands[last], handle) {
            assert forall|i: int|
                0 <= i < shorter.len() && plays(#[trigger] shorter[i], handle) implies outcomes.drop_last()[i]
                != AudioCommandResult::Done by {
                assert(commands[i] == shorter[i]);
            }
            lemma_run_starts_only_done_plays(before, shorter, outcomes.drop_last(), handle);
            if is_live(after, handle) {
                assert(after.len() == earlier.len() + 1);
                assert(live_once_at(after, handle, earlier.len() as int));
            }
        } else {
            if is_live(after, handle) {
                let i = choose|i: int| 0 <= i < after.len() && (#[trigger] after[i])@ == handle@;
                assert(i < earlier.len());
                assert(earlier[i]@ == handle@);
                let place = choose|place: int| #[trigger] live_once_at(earlier, handle, place);
                assert forall|other: int|
                    0 <= other < after.len() && other != place implies (#[trigger] after[other])@
                    != handle@ by {
                    if other < earlier.len() {
                        assert(earlier[other]@ != handle@);
                    }
                }
                assert(live_once_at(after, handle, place));
            }
        }
    }
}

/// A tick on an output with a manager takes a play whose sound is loaded
/// out of the queue, and if kira started its sound, exactly one instance
/// plays under its handle.
pub proof fn lemma_tick_starts_loaded_play(
    loaded: Set<u64>,
    before: ChannelView,
    after: ChannelView,
    queue_before: Seq<AudioCommand>,
    queue_after: Seq<AudioCommand>,
    outcomes: Seq<AudioCommandResult>,
    command: AudioCommand,
    handle: InstanceHandle,
)
    requires
        drained(true, loaded, before, after, queue_before, queue_after, outcomes),
        waits_once(queue_before, command, handle),
        command matches AudioCommand::Play(args) && loaded.contains(args.settings.source.id),
        !is_live(before.instances, handle),
    ensures
        !is_queued(queue_after, handle),
        is_live(after.instances, handle) ==> live_once(after.instances, handle),
{
    let place = choose|place: int|
        0 <= place < queue_before.len() && #[trigger] queue_before[place] == command && plays(
            command,
            handle,
        ) && forall|other: int|
            0 <= other < queue_before.len() && other != place ==> !plays(
                #[trigger] queue_before[other],
                handle,
            );
    let order = execution_order(queue_before);
    let turn = queue_before.len() - 1 - place;
    assert(order[turn] == queue_before[place]);
    lemma_loaded_play_starts(before, loaded, order, outcomes, turn);
    let places = lemma_retained_keeps_order(queue_before, outcomes);
    if is_queued(queue_after, handle) {
        let kept = choose|kept: int|
            0 <= kept < queue_after.len() && plays(#[trigger] queue_after[kept], handle);
        assert(queue_after[kept] == queue_before[places[kept]]);
        assert(places[kept] == place);
    }
    assert forall|i: int, j: int|
        0 <= i < order.len() && 0 <= j < order.len() && plays(#[trigger] order[i], handle)
            && plays(#[trigger] order[j], handle) implies i == j by {
        assert(order[i] == queue_before[queue_before.len() - 1 - i]);
        assert(order[j] == queue_before[queue_before.len() - 1 - j]);
    }
    lemma_run_starts_a_play_once(before, order, outcomes, handle);
}

/// What becomes of the one instance of a handle when the instances that
/// have stopped are forgotten: it stays the one instance of its handle
/// unless its own state is stopped, and then no instance of the handle is
/// left.
pub proof fn lemma_prune_of_live(
    instances: Seq<InstanceHandle>,
    states: Seq<SoundState>,
    handle: InstanceHandle,
    place: int,
)
    requires
        instances.len() == states.len(),
        live_once_at(instances, handle, place),
    ensures
        states[place] == SoundState::Stopped ==> !is_live(survivors(instances, states), handle),
        states[place] != SoundState::Stopped ==> live_once(survivors(instances, states), handle),
    decreases instances.len(),
{
    let last = instances.len() - 1;
    let shorter = instances.drop_last();
    let earlier = states.drop_last();
    assert(instances =~= shorter.push(instances[last]));
    assert(states =~= earlier.push(states[last]));
    lemma_survivors_next(shorter, earlier, instances[last], states[last]);
    let kept = survivors(shorter, earlier);
    let all = survivors(instances, states);
    if place == last {
        assert(!is_live(shorter, handle)) by {
            if is_live(shorter, handle) {
                let i = choose|i: int| 0 <= i < shorter.len() && (#[trigger] shorter[i])@ == handle@;
                assert(instances[i]@ == handle@);
            }
        }
        assert(thinned(shorter, kept));
        lemma_prune_starts_nothing(shorter, kept, handle);
        if states[place] != SoundState::Stopped {
            assert(live_once_at(all, handle, kept.len() as int));
        }
    } else {
        assert(live_once_at(shorter, handle, place)) by {
            assert forall|other: int| 0 <= other < shorter.len() && other != place implies (
            #[trigger] shorter[other])@ != handle@ by {
                assert(instances[other]@ != handle@);
            }
        }
        lemma_prune_of_live(shorter, earlier, handle, place);
        assert(instances[last]@ != handle@);
        if states[place] == SoundState::Stopped {
            if is_live(all, handle) {
                let i = choose|i: int| 0 <= i < all.len() && (#[trigger] all[i])@ == handle@;
                if i < kept.len() {
                    assert(kept[i]@ == handle@);
                }
            }
        } else {
            let at = choose|at: int| #[trigger] live_once_at(kept, handle, at);
            assert forall|other: int| 0 <= other < all.len() && other != at implies (
            #[trigger] all[other])@ != handle@ by {
                if other < kept.len() {
                    assert(kept[other]@ != handle@);
                }
            }
            assert(live_once_at(all, handle, at));
        }
    }
}

/// The state that a channel shows for the one entry of a handle in what
/// was published is the state in that entry.
pub proof fn lemma_published_state(
    snapshot: Seq<(InstanceHandle, PlaybackState)>,
    handle: InstanceHandle,
    place: int,
)
    requires
        0 <= place < snapshot.len(),
        snapshot[place].0@ == handle@,
        forall|other: int|
            0 <= other < snapshot.len() && other != place ==> (#[trigger] snapshot[other]).0@
                != handle@,
    ensures
        published(snapshot).contains_key(handle@),
        published(snapshot)[handle@] == snapshot[place].1,
    decreases snapshot.len(),
{
    let last = snapshot.len() - 1;
    if place < last {
        let shorter = snapshot.drop_last();
        assert(shorter[place] == snapshot[place]);
        assert forall|other: int| 0 <= other < shorter.len() && other != place implies (
        #[trigger] shorter[other]).0@ != handle@ by {
            assert(shorter[other] == snapshot[other]);
        }
        lemma_published_state(shorter, handle, place);
        assert(snapshot[last].0@ != handle@);
    }
}

/// A sound that plays shows the state that kira reports of it: where
/// exactly one instance plays under a handle, and the states are published
/// from `reports`, the channel says of the handle what callers are told of
/// the state that `reports` holds for that instance.
pub proof fn lemma_live_handle_shows_its_report(
    queue: Seq<AudioCommand>,
    instances: Seq<InstanceHandle>,
    reports: Seq<SoundState>,
    handle: InstanceHandle,
    place: int,
)
    requires
        reports.len() == instances.len(),
        live_once_at(instances, handle, place),
    ensures
        state_of(published(paired(instances, reports)), queue, handle)
            == reports[place].spec_published(),
{
    let snapshot = paired(instances, reports);
    assert forall|other: int| 0 <= other < snapshot.len() && other != place implies (
    #[trigger] snapshot[other]).0@ != handle@ by {
        assert(instances[other]@ != handle@);
    }
    lemma_published_state(snapshot, handle, place);
}

/// Once the one instance of a handle is reported as stopped when the
/// instances are looked at, and no play for the handle waits, nothing is
/// left of the handle after the states are published, and its channel says
/// `Stopped` of it.
pub proof fn lemma_stopped_instance_is_gone(
    queue: Seq<AudioCommand>,
    instances: Seq<InstanceHandle>,
    states: Seq<SoundState>,
    snapshot: Seq<(InstanceHandle, PlaybackState)>,
    handle: InstanceHandle,
    place: int,
)
    requires
        instances.len() == states.len(),
        live_once_at(instances, handle, place),
        states[place] == SoundState::Stopped,
        snapshot_of(survivors(instances, states), snapshot),
        !is_queued(queue, handle),
    ensures
        is_gone(queue, survivors(instances, states), published(snapshot), handle),
        state_of(published(snapshot), queue, handle) == PlaybackState::Stopped,
{
    lemma_prune_of_live(instances, states, handle, place);
    lemma_publish_shows_only_live(survivors(instances, states), snapshot, handle);
}

/// What is gone stays gone over a whole tick, on any output: if nothing is
/// left of a handle before, then after the drain, the forgetting of what
/// has stopped and the publishing of the states nothing is left of it, and
/// its channel says `Stopped` of it. This holds tick after tick, whatever
/// is queued in between that is not a play for the handle.
pub proof fn lemma_gone_stays_gone(
    enabled: bool,
    loaded: Set<u64>,
    before: ChannelView,
    drained_to: ChannelView,
    pruned_to: ChannelView,
    queue_before: Seq<AudioCommand>,
    queue_after: Seq<AudioCommand>,
    outcomes: Seq<AudioCommandResult>,
    states_before: Map<u64, PlaybackState>,
    snapshot: Seq<(InstanceHandle, PlaybackState)>,
    handle: InstanceHandle,
)
    requires
        is_gone(queue_before, before.instances, states_before, handle),
        drained(enabled, loaded, before, drained_to, queue_before, queue_after, outcomes),
        thinned(drained_to.instances, pruned_to.instances),
        snapshot_of(pruned_to.instances, snapshot),
    ensures
        is_gone(queue_after, pruned_to.instances, published(snapshot), handle),
        state_of(published(snapshot), queue_after, handle) == PlaybackState::Stopped,
{
    let order = execution_order(queue_before);
    assert forall|i: int| 0 <= i < order.len() implies !plays(#[trigger] order[i], handle) by {
        assert(order[i] == queue_before[queue_before.len() - 1 - i]);
    }
    lemma_run_starts_only_done_plays(before, order, outcomes, handle);
    let places = lemma_retained_keeps_order(queue_before, outcomes);
    if is_queued(queue_after, handle) {
        let kept = choose|kept: int|
            0 <= kept < queue_after.len() && plays(#[trigger] queue_after[kept], handle);
        assert(queue_after[kept] == queue_before[places[kept]]);
    }
    lemma_prune_starts_nothing(drained_to.instances, pruned_to.instances, handle);
    lemma_publish_shows_only_live(pruned_to.instances, snapshot, handle);
}

/// Whether every handle that a channel holds anywhere has a number below
/// `bound`: the handles of the plays that wait, of the instances that
/// play, and of the states that are shown. So it is with `bound` the count
/// of handles that a mint has given out, where all the handles come from
/// that mint.
pub open spec fn minted_below(
    queue: Seq<AudioCommand>,
    instances: Seq<InstanceHandle>,
    states: Map<u64, PlaybackState>,
    bound: nat,
) -> bool {
    &&& forall|i: int|
        0 <= i < queue.len() ==> (#[trigger] queue[i] matches AudioCommand::Play(args)
            ==> args.instance_handle@ < bound)
    &&& forall|i: int| 0 <= i < instances.len() ==> (#[trigger] instances[i])@ < bound
    &&& forall|id: u64| #[trigger] states.contains_key(id) ==> id < bound
}

/// A play that a channel queues with a handle fresh from the mint is only
/// waited for: where every handle that the channel holds was minted before,
/// the new command is the one play for its handle, no instance of the
/// handle plays and no state is shown for it. And every handle that the
/// channel holds is still below the count of the mint, which has grown by
/// one.
pub proof fn lemma_fresh_play_only_waits(
    queue: Seq<AudioCommand>,
    instances: Seq<InstanceHandle>,
    states: Map<u64, PlaybackState>,
    command: AudioCommand,
    handle: InstanceHandle,
)
    requires
        minted_below(queue, instances, states, handle@ as nat),
        plays(command, handle),
    ensures
        only_waits(seq![command] + queue, instances, states, command, handle),
        minted_below(seq![command] + queue, instances, states, (handle@ + 1) as nat),
{
    let longer = seq![command] + queue;
    assert(longer[0] == command);
    assert forall|other: int| 0 <= other < longer.len() && other != 0 implies !plays(
        #[trigger] longer[other],
        handle,
    ) by {
        assert(longer[other] == queue[other - 1]);
    }
    assert forall|i: int| 0 <= i < longer.len() implies (#[trigger] longer[i] matches AudioCommand::Play(
        args,
    ) ==> args.instance_handle@ < handle@ + 1) by {
        if i > 0 {
            assert(longer[i] == queue[i - 1]);
        }
    }
}

/// A tick brings no handle into a channel: where every handle that the
/// channel holds is below a bound, so it is after the drain, the
/// forgetting of what has stopped and the publishing of the states.
pub proof fn lemma_tick_mints_nothing(
    enabled: bool,
    loaded: Set<u64>,
    before: ChannelView,
    drained_to: ChannelView,
    pruned_to: ChannelView,
    queue_before: Seq<AudioCommand>,
    queue_after: Seq<AudioCommand>,
    outcomes: Seq<AudioCommandResult>,
    states_before: Map<u64, PlaybackState>,
    snapshot: Seq<(InstanceHandle, PlaybackState)>,
    bound: nat,
)
    requires
        minted_below(queue_before, before.instances, states_before, bound),
        drained(enabled, loaded, before, drained_to, queue_before, queue_after, outcomes),
        thinned(drained_to.instances, pruned_to.instances),
        snapshot_of(pruned_to.instances, snapshot),
    ensures
        minted_below(queue_after, pruned_to.instances, published(snapshot), bound),
{
    let order = execution_order(queue_before);
    let places = lemma_retained_keeps_order(queue_before, outcomes);
    assert forall|i: int| 0 <= i < queue_after.len() implies (#[trigger] queue_after[i] matches AudioCommand::Play(
        args,
    ) ==> args.instance_handle@ < bound) by {
        assert(queue_after[i] == queue_before[places[i]]);
    }
    assert forall|i: int| 0 <= i < pruned_to.instances.len() implies (
    #[trigger] pruned_to.instances[i])@ < bound by {
        let handle = pruned_to.instances[i];
        if handle@ >= bound {
            assert forall|k: int| 0 <= k < order.len() implies !plays(#[trigger] order[k], handle) by {
                assert(order[k] == queue_before[queue_before.len() - 1 - k]);
            }
            lemma_run_starts_only_done_plays(before, order, outcomes, handle);
            lemma_prune_starts_nothing(drained_to.instances, pruned_to.instances, handle);
        }
    }
    assert forall|id: u64| #[trigger] published(snapshot).contains_key(id) implies id < bound by {
        lemma_published_handles(snapshot, id);
        let i = choose|i: int| 0 <= i < snapshot.len() && (#[trigger] snapshot[i]).0@ == id;
        assert(pruned_to.instances[i]@ == id);
    }
}

} // verus!
