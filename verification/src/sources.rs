//! The store of loaded sounds that play commands look their sound up in.

use vstd::prelude::*;
use std::collections::HashMap;
use kira::sound::static_sound::StaticSoundData;
use crate::backend::facts_of;
use crate::backend::sound_facts;
use crate::command::SourceId;

verus! {

broadcast use vstd::std_specs::hash::group_hash_axioms;

/// The sounds that are loaded, each under the id of its source. Every sound
/// in the store is one that kira can start.
pub struct AudioSources {
    sounds: HashMap<u64, StaticSoundData>,
}

impl View for AudioSources {
    type V = Map<u64, StaticSoundData>;

    closed spec fn view(&self) -> Map<u64, StaticSoundData> {
        self.sounds@
    }
}

impl AudioSources {
    /// Every sound in the store is one that kira can start.
    pub closed spec fn wf(&self) -> bool {
        forall|id: u64| #[trigger]
            self.sounds@.contains_key(id) ==> facts_of(self.sounds@[id]).spec_startable()
    }

    /// A store with no sound in it.
    pub fn new() -> (sources: AudioSources)
        ensures
            sources.wf(),
            sources@ == Map::<u64, StaticSoundData>::empty(),
    {
        AudioSources { sounds: HashMap::new() }
    }

    /// Whether the sound of `source` is loaded.
    pub open spec fn available(&self, source: SourceId) -> bool {
        self@.contains_key(source.id)
    }

    /// Puts `sound` in under `source`, in place of what was there, if kira
    /// can start it; a sound that kira cannot start is turned away, and the
    /// store stays as it is. The result tells whether the sound went in.
    pub fn insert(&mut self, source: SourceId, sound: StaticSoundData) -> (taken: bool)
        requires
            old(self).wf(),
        ensures
            final(self).wf(),
            taken == facts_of(sound).spec_startable(),
            final(self)@ == if taken {
                old(self)@.insert(source.id, sound)
            } else {
                old(self)@
            },
    {
        if sound_facts(&sound).startable() {
            self.sounds.insert(source.id, sound);
            true
        } else {
            false
        }
    }

    /// Takes the sound of `source` out, if it is there.
    pub fn remove(&mut self, source: SourceId)
        requires
            old(self).wf(),
        ensures
            final(self).wf(),
            final(self)@ == old(self)@.remove(source.id),
    {
        self.sounds.remove(&source.id);
    }

    /// Whether the sound of `source` is loaded.
    pub fn contains(&self, source: SourceId) -> (loaded: bool)
        ensures
            loaded == self.available(source),
    {
        self.sounds.contains_key(&source.id)
    }

    /// The sound of `source`, if it is loaded. It is one that kira can
    /// start.
    pub fn get(&self, source: SourceId) -> (sound: Option<&StaticSoundData>)
        requires
            self.wf(),
        ensures
            match sound {
                Some(s) => self.available(source) && *s == self@[source.id] && facts_of(
                    *s,
                ).spec_startable(),
                None => !self.available(source),
            },
    {
        self.sounds.get(&source.id)
    }
}

} // verus!
