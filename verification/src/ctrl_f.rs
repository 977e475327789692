use vstd::prelude::*;
use std::collections::hash_map::Entry;
use std::collections::HashMap;

use crate::gens::{first_free_key, lemma_first_free_key, lemma_first_free_key_after_prefix};
use crate::Error;

pub mod phantom;
pub mod point_defined;

verus! {

/// Where a generator is kept: among the globals, or in a track's own or its
/// instrument's store.
#[derive(Debug, Clone, Copy, PartialEq, Eq, Structural)]
pub enum GenId {
    Unbound,
    Global(u8),
    Track { track: u8, key: u8 },
    Instr { track: u8, key: u8 },
}

/// A store of generators: the globals, a track's own, or a track's instrument's.
#[derive(Debug, Clone, Copy, PartialEq, Eq, Structural)]
pub enum SaveId {
    Unbound,
    Global,
    Track(u8),
    Instr(u8),
}

/// The store and key an identifier names; `Error::Unbound` for an unbound one.
pub open spec fn spec_decompose(id: GenId) -> Result<(SaveId, u8), Error> {
    match id {
        GenId::Unbound => Err(Error::Unbound),
        GenId::Global(key) => Ok((SaveId::Global, key)),
        GenId::Track { track, key } => Ok((SaveId::Track(track), key)),
        GenId::Instr { track, key } => Ok((SaveId::Instr(track), key)),
    }
}

/// The identifier of the key `key` in the store `save`.
pub open spec fn spec_add_key(save: SaveId, key: u8) -> GenId {
    match save {
        SaveId::Unbound => GenId::Unbound,
        SaveId::Global => GenId::Global(key),
        SaveId::Track(track) => GenId::Track { track, key },
        SaveId::Instr(track) => GenId::Instr { track, key },
    }
}

impl GenId {
    /// The store and key the identifier names; `Error::Unbound` for an unbound one.
    pub fn decompose(&self) -> (res: Result<(SaveId, u8), Error>)
        ensures
            res == spec_decompose(*self),
    {
        match self {
            GenId::Unbound => Err(Error::Unbound),
            GenId::Global(key) => Ok((SaveId::Global, *key)),
            GenId::Track { track, key } => Ok((SaveId::Track(*track), *key)),
            GenId::Instr { track, key } => Ok((SaveId::Instr(*track), *key)),
        }
    }
}

impl Default for GenId {
    fn default() -> (res: Self)
        ensures
            res == GenId::Unbound,
    {
        Self::Unbound
    }
}

impl SaveId {
    /// The identifier of the key `key` in this store.
    pub fn add_key(&self, key: u8) -> (res: GenId)
        ensures
            res == spec_add_key(*self, key),
    {
        match self {
            SaveId::Unbound => GenId::Unbound,
            SaveId::Global => GenId::Global(key),
            SaveId::Track(track) => GenId::Track { track: *track, key },
            SaveId::Instr(track) => GenId::Instr { track: *track, key },
        }
    }
}

impl Default for SaveId {
    fn default() -> (res: Self)
        ensures
            res == SaveId::Unbound,
    {
        Self::Unbound
    }
}

/// Splitting an identifier of a store and a key gives back that store and key.
pub proof fn lemma_decompose_add_key(save: SaveId, key: u8)
    requires
        save != SaveId::Unbound,
    ensures
        spec_decompose(spec_add_key(save, key)) == Ok::<(SaveId, u8), Error>((save, key)),
{
}

/// Putting a split identifier together again gives back the identifier.
pub proof fn lemma_add_key_decompose(id: GenId)
    requires
        spec_decompose(id) is Ok,
    ensures
        spec_add_key(spec_decompose(id)->Ok_0.0, spec_decompose(id)->Ok_0.1) == id,
{
}


/// The generators of one store, by key.
#[derive(Debug)]
pub struct GeneratorSave<G> {
    map: HashMap<u8, G>,
}

impl<G> GeneratorSave<G> {
    /// The generators held, by key.
    pub closed spec fn gens(&self) -> Map<u8, G> {
        self.map@
    }

    /// An empty store.
    pub fn new() -> (res: Self)
        ensures
            res.gens() == Map::<u8, G>::empty(),
    {
        Self { map: HashMap::new() }
    }

    /// Stores `gen` under the smallest free key and gives that key;
    /// `Error::Overflow` when all 256 keys are taken.
    pub fn add_generator(&mut self, gen: G) -> (res: Result<u8, Error>)
        ensures
            match first_free_key(old(self).gens().dom()) {
                Some(k) => res == Ok::<u8, Error>(k) && final(self).gens() == old(self).gens().insert(
                    k,
                    gen,
                ),
                None => res == Err::<u8, Error>(Error::Overflow) && final(self).gens() == old(
                    self,
                ).gens(),
            },
    {
        broadcast use vstd::std_specs::hash::group_hash_axioms;
        proof {
            lemma_first_free_key(self.gens().dom());
        }
        let mut key: u16 = 0;
        while key <= 255
            invariant
                0 <= key <= 256,
                self.gens() == old(self).gens(),
                forall|j: u8| j < key ==> #[trigger] self.gens().dom().contains(j),
                first_free_key(self.gens().dom()) matches Some(k) ==> key <= k,
                first_free_key(self.gens().dom()) matches Some(k) ==> !self.gens().dom().contains(
                    k,
                ) && forall|j: u8| j < k ==> #[trigger] self.gens().dom().contains(j),
                first_free_key(self.gens().dom()) is None ==> forall|j: u8| #[trigger]
                    self.gens().dom().contains(j),
            decreases 256 - key,
        {
            let k = key as u8;
            if !self.map.contains_key(&k) {
                self.map.insert(k, gen);
                return Ok(k);
            }
            key = key + 1;
        }
        Err(Error::Overflow)
    }
}

impl<G> Default for GeneratorSave<G> {
    fn default() -> (res: Self)
        ensures
            res.gens() == Map::<u8, G>::empty(),
    {
        Self::new()
    }
}

/// The generators of one track: its own store and its instrument's store.
#[derive(Debug)]
pub struct TrackGManager<G> {
    pub track_id: u8,
    pub locals: GeneratorSave<G>,
    pub instr: GeneratorSave<G>,
}

impl<G> TrackGManager<G> {
    /// Empty stores for the track `id`.
    pub fn new(id: u8) -> (res: Self)
        ensures
            res.track_id == id,
            res.locals.gens() == Map::<u8, G>::empty(),
            res.instr.gens() == Map::<u8, G>::empty(),
    {
        Self { track_id: id, locals: GeneratorSave::new(), instr: GeneratorSave::new() }
    }
}

/// All generators: the global store and, per track, the track's stores.
#[derive(Debug)]
pub struct GeneratorManager<G> {
    globals: GeneratorSave<G>,
    tracks: HashMap<u8, TrackGManager<G>>,
}

impl<G> GeneratorManager<G> {
    /// The global store.
    pub closed spec fn globals_save(&self) -> GeneratorSave<G> {
        self.globals
    }

    /// The stores of each track, by track.
    pub closed spec fn track_map(&self) -> Map<u8, TrackGManager<G>> {
        self.tracks@
    }

    /// The keys held by the store `id`, or why it cannot be reached.
    pub open spec fn save_keys(&self, id: SaveId) -> Result<Set<u8>, Error> {
        match id {
            SaveId::Unbound => Err(Error::Unbound),
            SaveId::Global => Ok(self.globals_save().gens().dom()),
            SaveId::Track(t) => if self.track_map().contains_key(t) {
                Ok(self.track_map()[t].locals.gens().dom())
            } else {
                Err(Error::Existence)
            },
            SaveId::Instr(t) => if self.track_map().contains_key(t) {
                Ok(self.track_map()[t].instr.gens().dom())
            } else {
                Err(Error::Existence)
            },
        }
    }

    /// The generators held by the store `id`, when it can be reached.
    pub open spec fn save_gens(&self, id: SaveId) -> Map<u8, G> {
        match id {
            SaveId::Global => self.globals_save().gens(),
            SaveId::Track(t) => self.track_map()[t].locals.gens(),
            SaveId::Instr(t) => self.track_map()[t].instr.gens(),
            SaveId::Unbound => Map::empty(),
        }
    }

    /// No generators and no tracks.
    pub fn new() -> (res: Self)
        ensures
            res.globals_save().gens() == Map::<u8, G>::empty(),
            res.track_map() == Map::<u8, TrackGManager<G>>::empty(),
    {
        Self { globals: GeneratorSave::new(), tracks: HashMap::new() }
    }

    /// Adds the track `id` with empty stores; a track that is already there is
    /// refused with `Error::Overwrite`.
    pub fn new_track(&mut self, id: u8) -> (res: Result<(), Error>)
        ensures
            final(self).globals_save() == old(self).globals_save(),
            old(self).track_map().contains_key(id) ==> res == Err::<(), Error>(Error::Overwrite)
                && final(self).track_map() == old(self).track_map(),
            !old(self).track_map().contains_key(id) ==> res is Ok && final(self).track_map()
                == old(self).track_map().insert(id, final(self).track_map()[id])
                && final(self).track_map()[id].track_id == id
                && final(self).track_map()[id].locals.gens() == Map::<u8, G>::empty()
                && final(self).track_map()[id].instr.gens() == Map::<u8, G>::empty(),
    {
        broadcast use vstd::std_specs::hash::group_hash_axioms;
        if self.tracks.contains_key(&id) {
            return Err(Error::Overwrite);
        }
        self.tracks.insert(id, TrackGManager::new(id));
        Ok(())
    }

    /// Stores `gen` under the smallest free key of the store `id` and gives its
    /// identifier; an unbound store gives `Error::Unbound`, a missing track
    /// `Error::Existence`, a full store `Error::Overflow`.
    pub fn add_generator(&mut self, gen: G, id: SaveId) -> (res: Result<GenId, Error>)
        ensures
            final(self).track_map().dom() == old(self).track_map().dom(),
            old(self).save_keys(id) matches Err(e) ==> res == Err::<GenId, Error>(e),
            old(self).save_keys(id) matches Ok(keys) ==> match first_free_key(keys) {
                Some(k) => res == Ok::<GenId, Error>(spec_add_key(id, k)) && final(self).save_gens(id)
                    == old(self).save_gens(id).insert(k, gen),
                None => res == Err::<GenId, Error>(Error::Overflow),
            },
            forall|other: SaveId|
                other != id && old(self).save_keys(other) is Ok ==> #[trigger] final(self).save_gens(other)
                    == old(self).save_gens(other),
            res is Err ==> forall|other: SaveId|
                old(self).save_keys(other) is Ok ==> #[trigger] final(self).save_gens(other) == old(
                    self,
                ).save_gens(other),
    {
        broadcast use vstd::std_specs::hash::group_hash_axioms;
        match id {
            SaveId::Unbound => Err(Error::Unbound),
            SaveId::Global => {
                let key = self.globals.add_generator(gen)?;
                Ok(id.add_key(key))
            },
            SaveId::Track(track) => match self.tracks.entry(track) {
                Entry::Occupied(e) => {
                    let key = e.into_mut().locals.add_generator(gen)?;
                    Ok(id.add_key(key))
                },
                Entry::Vacant(_) => Err(Error::Existence),
            },
            SaveId::Instr(track) => match self.tracks.entry(track) {
                Entry::Occupied(e) => {
                    let key = e.into_mut().instr.add_generator(gen)?;
                    Ok(id.add_key(key))
                },
                Entry::Vacant(_) => Err(Error::Existence),
            },
        }
    }
}

impl<G> Default for GeneratorManager<G> {
    fn default() -> (res: Self)
        ensures
            res.globals_save().gens() == Map::<u8, G>::empty(),
            res.track_map() == Map::<u8, TrackGManager<G>>::empty(),
    {
        Self::new()
    }
}

} // verus!
