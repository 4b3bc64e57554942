//! Handles by which callers name the sounds they started, and what a caller
//! can learn of such a sound.

use vstd::prelude::*;

verus! {

/// Names one playback of one sound. A caller gets it when it asks a channel
/// to play, before any backend has seen the sound, and keeps it for good.
#[derive(Clone, Copy, Debug, PartialEq, Eq, Hash, Structural)]
pub struct InstanceHandle {
    id: u64,
}

impl View for InstanceHandle {
    type V = u64;

    closed spec fn view(&self) -> u64 {
        self.id
    }
}

impl InstanceHandle {
    /// Mints a handle that `ids` has not given out before.
    pub fn new(ids: &mut HandleMint) -> (handle: InstanceHandle)
        requires
            old(ids).issued() < u64::MAX,
        ensures
            handle@ == old(ids).issued(),
            final(ids).issued() == old(ids).issued() + 1,
    {
        ids.mint()
    }

    /// The number that tells this handle from every other.
    pub fn id(&self) -> (id: u64)
        ensures
            id == self@,
    {
        self.id
    }

    /// Two handles with one number are one handle.
    pub proof fn lemma_same_id_same_handle(a: InstanceHandle, b: InstanceHandle)
        ensures
            (a@ == b@) == (a == b),
    {
    }
}

/// Gives out instance handles, each with the next unused number.
#[derive(Debug)]
pub struct HandleMint {
    next: u64,
}

impl HandleMint {
    /// How many handles this mint has given out; also the number of the next
    /// one.
    pub closed spec fn issued(&self) -> nat {
        self.next as nat
    }

    /// A mint that has given out nothing yet.
    pub fn new() -> (ids: HandleMint)
        ensures
            ids.issued() == 0,
    {
        HandleMint { next: 0 }
    }

    /// Whether another handle can be minted.
    pub fn has_room(&self) -> (room: bool)
        ensures
            room == (self.issued() < u64::MAX),
    {
        self.next < u64::MAX
    }

    /// The next handle. Its number is the count of handles given out before,
    /// so no two handles of one mint are equal.
    pub fn mint(&mut self) -> (handle: InstanceHandle)
        requires
            old(self).issued() < u64::MAX,
        ensures
            handle@ == old(self).issued(),
            final(self).issued() == old(self).issued() + 1,
    {
        let id: u64 = self.next;
        self.next = id + 1;
        InstanceHandle { id }
    }
}

/// What a caller can learn of a sound it asked for.
#[derive(Clone, Copy, Debug, PartialEq, Eq, Structural)]
pub enum PlaybackState {
    /// The play command still waits in its channel's queue.
    Queued,
    /// The backend plays the sound.
    Playing,
    /// The backend holds the sound, ready to go on, or fades it out to
    /// hold it.
    Paused,
    /// The sound has ended or fades out to end, was never started, or is
    /// not known.
    Stopped,
}

} // verus!
