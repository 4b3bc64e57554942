//! The queue of commands that a channel holds between ticks.
//!
//! New commands enter at the front. A drain looks at as many commands as the
//! queue held when it began, oldest first, and puts those that have to be
//! tried again back at the front: so they stay older than anything that is
//! queued afterwards, and in the order in which they were submitted.

use vstd::prelude::*;
use std::collections::VecDeque;
use crate::command::AudioCommand;
use crate::command::AudioCommandResult;

verus! {

/// A queue of commands. Its view lists them newest first.
#[derive(Debug)]
pub struct CommandQueue {
    commands: VecDeque<AudioCommand>,
}

impl View for CommandQueue {
    type V = Seq<AudioCommand>;

    closed spec fn view(&self) -> Seq<AudioCommand> {
        self.commands@
    }
}

/// The order in which a drain attempts the commands of `queue`: oldest first.
pub open spec fn execution_order(queue: Seq<AudioCommand>) -> Seq<AudioCommand> {
    queue.reverse()
}

/// `queue` after `submitted` have been enqueued one by one, first to last.
pub open spec fn enqueued(queue: Seq<AudioCommand>, submitted: Seq<AudioCommand>) -> Seq<
    AudioCommand,
> {
    submitted.reverse() + queue
}

/// Each command of `queue` with the outcome of its attempt, where
/// `outcomes` lists the outcomes in the order of the attempts.
pub open spec fn attempts(queue: Seq<AudioCommand>, outcomes: Seq<AudioCommandResult>) -> Seq<
    (AudioCommand, AudioCommandResult),
> {
    Seq::new(queue.len(), |k: int| (queue[k], outcomes[queue.len() - 1 - k]))
}

/// Whether an attempt asks for another one.
pub open spec fn asks_retry(attempt: (AudioCommand, AudioCommandResult)) -> bool {
    attempt.1 == AudioCommandResult::Retry
}

/// What a drain leaves in `queue`: the commands whose attempt asked for a
/// retry, in the order they had.
pub open spec fn retained(queue: Seq<AudioCommand>, outcomes: Seq<AudioCommandResult>) -> Seq<
    AudioCommand,
> {
    attempts(queue, outcomes).filter(|a: (AudioCommand, AudioCommandResult)| asks_retry(a)).map_values(
        |a: (AudioCommand, AudioCommandResult)| a.0,
    )
}

/// What the queue holds in the middle of a drain of `queue`, when the
/// attempts so far have ended with `done`: what those attempts put back, in
/// front of the commands that the drain has not come to yet.
pub open spec fn mid_drain(queue: Seq<AudioCommand>, done: Seq<AudioCommandResult>) -> Seq<
    AudioCommand,
> {
    retained(queue.skip(queue.len() - done.len()), done) + queue.take(queue.len() - done.len())
}

impl CommandQueue {
    /// An empty queue.
    pub fn new() -> (queue: CommandQueue)
        ensures
            queue@ == Seq::<AudioCommand>::empty(),
    {
        CommandQueue { commands: VecDeque::new() }
    }

    /// How many commands wait.
    pub fn len(&self) -> (len: usize)
        ensures
            len == self@.len(),
    {
        self.commands.len()
    }

    /// The command at `index`, counted from the newest.
    pub fn get(&self, index: usize) -> (command: &AudioCommand)
        requires
            index < self@.len(),
        ensures
            *command == self@[index as int],
    {
        &self.commands[index]
    }

    /// Puts `command` in as the newest.
    pub fn enqueue(&mut self, command: AudioCommand)
        ensures
            final(self)@ == seq![command] + old(self)@,
    {
        self.commands.push_front(command);
    }

    /// Takes the oldest command out, if there is one.
    pub fn take_oldest(&mut self) -> (command: Option<AudioCommand>)
        ensures
            match command {
                Some(c) => old(self)@.len() > 0 && c == old(self)@.last() && final(self)@ == old(self)@.drop_last(),
                None => old(self)@.len() == 0 && final(self)@ == old(self)@,
            },
    {
        self.commands.pop_back()
    }

    /// Ends the attempt on `command`, which `take_oldest` handed out: it
    /// goes back in as the newest if the attempt asks for a retry, and is
    /// gone otherwise.
    pub fn settle(&mut self, command: AudioCommand, outcome: AudioCommandResult)
        ensures
            final(self)@ == if outcome == AudioCommandResult::Retry {
                seq![command] + old(self)@
            } else {
                old(self)@
            },
    {
        match outcome {
            AudioCommandResult::Retry => {
                self.commands.push_front(command);
            },
            _ => {},
        }
    }

    /// One drain: as many commands as wait at the start are handed to
    /// `executor`, oldest first, and each for which it asks for a retry goes
    /// back in as the newest, so that it waits behind those that this drain
    /// has not come to yet. The result lists what `executor` answered, in
    /// the order of the attempts.
    pub fn drain_attempt<F: Fn(&AudioCommand) -> AudioCommandResult>(&mut self, executor: F) -> (outcomes:
        Vec<AudioCommandResult>)
        requires
            forall|command: AudioCommand| call_requires(executor, (&command,)),
        ensures
            outcomes@.len() == old(self)@.len(),
            final(self)@ == retained(old(self)@, outcomes@),
            forall|i: int|
                0 <= i < outcomes@.len() ==> call_ensures(
                    executor,
                    (&execution_order(old(self)@)[i],),
                    #[trigger] outcomes@[i],
                ),
    {
        let len: usize = self.commands.len();
        let mut outcomes: Vec<AudioCommandResult> = Vec::new();
        let ghost queue = self@;
        proof {
            lemma_drain_start(queue);
        }
        let mut i: usize = 0;
        while i < len
            invariant
                forall|command: AudioCommand| call_requires(executor, (&command,)),
                queue == old(self)@,
                len == queue.len(),
                i <= len,
                outcomes@.len() == i,
                self@ == mid_drain(queue, outcomes@),
                forall|k: int|
                    0 <= k < i ==> call_ensures(
                        executor,
                        (&execution_order(queue)[k],),
                        #[trigger] outcomes@[k],
                    ),
            decreases len - i,
        {
            let ghost done = outcomes@;
            let command = self.take_oldest().unwrap();
            let outcome = executor(&command);
            self.settle(command, outcome);
            outcomes.push(outcome);
            proof {
                lemma_drain_step(queue, done, outcome);
            }
            i += 1;
        }
        proof {
            lemma_drain_end(queue, outcomes@);
        }
        outcomes
    }
}

/// Before its first attempt a drain finds the queue as it is.
pub proof fn lemma_drain_start(queue: Seq<AudioCommand>)
    ensures
        mid_drain(queue, Seq::empty()) == queue,
{
    let none: Seq<AudioCommandResult> = Seq::empty();
    assert(queue.skip(queue.len() as int) =~= Seq::empty());
    assert(queue.take(queue.len() as int) =~= queue);
    assert(attempts(Seq::empty(), none) =~= Seq::empty());
    reveal(Seq::filter);
    assert(retained(Seq::empty(), none) =~= Seq::empty());
}

/// One attempt of a drain: the command that the drain comes to is the
/// oldest that waits, the next in the order of execution. It leaves the
/// back of the queue, and goes in at the front if the attempt asks for a
/// retry.
pub proof fn lemma_drain_step(
    queue: Seq<AudioCommand>,
    done: Seq<AudioCommandResult>,
    outcome: AudioCommandResult,
)
    requires
        done.len() < queue.len(),
    ensures
        mid_drain(queue, done).len() > 0,
        mid_drain(queue, done).last() == execution_order(queue)[done.len() as int],
        mid_drain(queue, done.push(outcome)) == if outcome == AudioCommandResult::Retry {
            seq![execution_order(queue)[done.len() as int]] + mid_drain(queue, done).drop_last()
        } else {
            mid_drain(queue, done).drop_last()
        },
{
    let left = queue.len() - done.len();
    let command = queue[left - 1];
    let kept = retained(queue.skip(left), done);
    assert((kept + queue.take(left)).last() == command);
    assert((kept + queue.take(left)).drop_last() =~= kept + queue.take(left - 1));
    assert(queue.skip(left - 1) =~= seq![command] + queue.skip(left));
    lemma_retained_newest(queue.skip(left), done, command, outcome);
    assert(mid_drain(queue, done.push(outcome)) =~= retained(
        queue.skip(left - 1),
        done.push(outcome),
    ) + queue.take(left - 1));
    if outcome == AudioCommandResult::Retry {
        assert(mid_drain(queue, done.push(outcome)) =~= seq![command] + mid_drain(
            queue,
            done,
        ).drop_last());
    }
}

/// After its last attempt a drain leaves what the attempts put back.
pub proof fn lemma_drain_end(queue: Seq<AudioCommand>, outcomes: Seq<AudioCommandResult>)
    requires
        outcomes.len() == queue.len(),
    ensures
        mid_drain(queue, outcomes) == retained(queue, outcomes),
{
    assert(queue.skip(0) =~= queue);
    assert(queue.take(0) =~= Seq::empty());
}

/// A drain of a queue with one more command at its front attempts that
/// command last, and leaves it in front of the others if it has to be tried
/// again.
pub proof fn lemma_retained_newest(
    queue: Seq<AudioCommand>,
    outcomes: Seq<AudioCommandResult>,
    command: AudioCommand,
    outcome: AudioCommandResult,
)
    requires
        queue.len() == outcomes.len(),
    ensures
        retained(seq![command] + queue, outcomes.push(outcome)) == if outcome
            == AudioCommandResult::Retry {
            seq![command] + retained(queue, outcomes)
        } else {
            retained(queue, outcomes)
        },
{
    let pred = |a: (AudioCommand, AudioCommandResult)| asks_retry(a);
    let first = |a: (AudioCommand, AudioCommandResult)| a.0;
    let older = attempts(queue, outcomes);
    let all = attempts(seq![command] + queue, outcomes.push(outcome));
    assert(all =~= seq![(command, outcome)] + older);
    older.lemma_filter_prepend((command, outcome), pred);
    if outcome == AudioCommandResult::Retry {
        assert(all.filter(pred).map_values(first) =~= seq![command] + older.filter(pred).map_values(
            first,
        ));
    } else {
        assert(all.filter(pred) =~= older.filter(pred));
    }
}

} // verus!
