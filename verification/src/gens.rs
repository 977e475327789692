use vstd::prelude::*;

use std::collections::hash_map::Entry;
use std::collections::HashMap;

use crate::Error;

pub mod point_defined;

verus! {

/// Where a generator is kept: among the globals, among a track's own or its
/// instrument's generators, or as one of a track's note-specific generators. The
/// `Extracted` forms belong to an instrument description that is not bound to a
/// track yet.
#[derive(Debug, Clone, Copy, PartialEq, Eq, Structural)]
pub enum GenId {
    Global(u8),
    Track { track_id: u8, key: u8 },
    Instr { track_id: u8, key: u8 },
    InstrExtracted { key: u8 },
    Specific { track_id: u8, kind: Specific },
    SpecificExtracted { kind: Specific },
    Unbound,
}

/// The generators every track has for its notes.
#[derive(Debug, Clone, Copy, PartialEq, Eq, Structural)]
pub enum Specific {
    Vel,
    ModW,
    Pitch,
}

/// A track's own generators or its instrument's.
#[derive(Debug, Clone, Copy, PartialEq, Eq, Structural)]
pub enum TI {
    Track,
    Instr,
}

/// The identifier with its track taken out, for the identifiers that an
/// instrument description can hold.
pub open spec fn spec_extract(id: GenId) -> Result<GenId, Error> {
    match id {
        GenId::Global(_) => Err(Error::Type),
        GenId::Track { .. } => Err(Error::Type),
        GenId::Instr { track_id: _, key } => Ok(GenId::InstrExtracted { key }),
        GenId::InstrExtracted { .. } => Ok(id),
        GenId::Specific { track_id: _, kind } => Ok(GenId::SpecificExtracted { kind }),
        GenId::SpecificExtracted { .. } => Ok(id),
        GenId::Unbound => Err(Error::Unbound),
    }
}

/// The identifier bound to the track `track_id`; global and unbound identifiers
/// stay as they are.
pub open spec fn with_track(id: GenId, track_id: u8) -> GenId {
    match id {
        GenId::Track { track_id: _, key } => GenId::Track { track_id, key },
        GenId::Instr { track_id: _, key } => GenId::Instr { track_id, key },
        GenId::InstrExtracted { key } => GenId::Instr { track_id, key },
        GenId::Specific { track_id: _, kind } => GenId::Specific { track_id, kind },
        GenId::SpecificExtracted { kind } => GenId::Specific { track_id, kind },
        GenId::Global(_) => id,
        GenId::Unbound => id,
    }
}

/// The identifier of the key `key` in the store named by `id`: a track's own or
/// instrument store, or the globals when there is no track.
pub open spec fn spec_put_together(id: Option<(u8, TI)>, key: u8) -> GenId {
    match id {
        Some((track_id, TI::Track)) => GenId::Track { track_id, key },
        Some((track_id, TI::Instr)) => GenId::Instr { track_id, key },
        None => GenId::Global(key),
    }
}

impl GenId {
    /// The identifier with its track taken out; global and track identifiers give
    /// `Error::Type`, an unbound one `Error::Unbound`.
    pub fn extract(&self) -> (res: Result<Self, Error>)
        ensures
            res == spec_extract(*self),
    {
        match self {
            GenId::Global(_) => Err(Error::Type),
            GenId::Track { track_id: _, key: _ } => Err(Error::Type),
            GenId::Instr { track_id: _, key } => Ok(Self::InstrExtracted { key: *key }),
            GenId::InstrExtracted { key: _ } => Ok(*self),
            GenId::Specific { track_id: _, kind } => Ok(Self::SpecificExtracted { kind: *kind }),
            GenId::SpecificExtracted { kind: _ } => Ok(*self),
            GenId::Unbound => Err(Error::Unbound),
        }
    }

    /// Binds the identifier to the track `track_id`.
    pub fn set_id(&mut self, track_id: u8)
        ensures
            *final(self) == with_track(*old(self), track_id),
    {
        match *self {
            GenId::Track { track_id: _, key } => { *self = GenId::Track { track_id, key } },
            GenId::Instr { track_id: _, key } => { *self = GenId::Instr { track_id, key } },
            GenId::InstrExtracted { key } => { *self = GenId::Instr { track_id, key } },
            GenId::Specific { track_id: _, kind } => { *self = GenId::Specific { track_id, kind } },
            GenId::SpecificExtracted { kind } => { *self = GenId::Specific { track_id, kind } },
            GenId::Global(_) => {},
            GenId::Unbound => {},
        }
    }

    /// The identifier of the key `key` in the store named by `id`.
    pub fn put_together(id: Option<(u8, TI)>, key: u8) -> (res: Self)
        ensures
            res == spec_put_together(id, key),
    {
        if let Some((track_id, kind)) = id {
            match kind {
                TI::Track => Self::Track { track_id, key },
                TI::Instr => Self::Instr { track_id, key },
            }
        } else {
            Self::Global(key)
        }
    }
}

impl Default for GenId {
    fn default() -> (res: Self)
        ensures
            res == GenId::Unbound,
    {
        Self::Unbound
    }
}

/// Binding to a track twice is binding to the second track.
pub proof fn lemma_set_id_twice(id: GenId, first: u8, second: u8)
    ensures
        with_track(with_track(id, first), second) == with_track(id, second),
{
}

/// Taking the track out ignores which track an identifier was bound to.
pub proof fn lemma_extract_ignores_track(id: GenId, track_id: u8)
    ensures
        spec_extract(with_track(id, track_id)) == spec_extract(id),
{
}

/// Binding an extracted identifier to a track gives what binding the identifier itself does:
/// extracting and binding again restores an identifier of that track.
pub proof fn lemma_extract_then_bind(id: GenId, track_id: u8)
    requires
        spec_extract(id) is Ok,
    ensures
        with_track(spec_extract(id)->Ok_0, track_id) == with_track(id, track_id),
        spec_extract(spec_extract(id)->Ok_0) == spec_extract(id),
{
}

/// An instrument key put together with its track extracts to the bare key; a track
/// key or a global key cannot be extracted.
pub proof fn lemma_put_together_extract(id: Option<(u8, TI)>, key: u8)
    ensures
        spec_extract(spec_put_together(id, key)) == match id {
            Some((_, TI::Instr)) => Ok(GenId::InstrExtracted { key }),
            _ => Err::<GenId, Error>(Error::Type),
        },
{
}


/// A generator that can be told the identifier it is stored under.
pub trait IdHolder: Sized {
    /// The generator once it has been told the identifier `id`; a type that
    /// keeps the law of `set_id` says what it is.
    open spec fn with_id(&self, id: GenId) -> Self {
        *self
    }

    /// The type keeps the law of `set_id`: telling a generator `id` makes it
    /// `with_id(id)`. What is proved through that law holds of the types that
    /// show it; a type shows it by giving both spec functions, and none does
    /// until it says so.
    open spec fn obeys_id_law() -> bool {
        false
    }

    /// Records `id` as the generator's own identifier.
    fn set_id(&mut self, id: GenId)
        ensures
            Self::obeys_id_law() ==> *final(self) == old(self).with_id(id),
    ;
}

/// The smallest key from `from` on that `keys` does not hold, if any is left below 256.
pub open spec fn free_key_from(keys: Set<u8>, from: int) -> Option<u8>
    decreases 256 - from,
{
    if from < 0 || from > 255 {
        None
    } else if !keys.contains(from as u8) {
        Some(from as u8)
    } else {
        free_key_from(keys, from + 1)
    }
}

/// The smallest key that `keys` does not hold, if any.
pub open spec fn first_free_key(keys: Set<u8>) -> Option<u8> {
    free_key_from(keys, 0)
}

proof fn lemma_free_key_from(keys: Set<u8>, from: int)
    requires
        0 <= from <= 256,
    ensures
        free_key_from(keys, from) matches Some(k) ==> from <= k && !keys.contains(k) && forall|
            j: u8,
        |
            from <= j < k ==> #[trigger] keys.contains(j),
        free_key_from(keys, from) is None ==> forall|j: u8| from <= j ==> #[trigger] keys.contains(j),
    decreases 256 - from,
{
    if from <= 255 && keys.contains(from as u8) {
        lemma_free_key_from(keys, from + 1);
    }
}

/// The smallest free key is not held and every smaller key is; there is none only
/// when all 256 keys are held.
pub proof fn lemma_first_free_key(keys: Set<u8>)
    ensures
        first_free_key(keys) matches Some(k) ==> !keys.contains(k) && forall|j: u8|
            j < k ==> #[trigger] keys.contains(j),
        first_free_key(keys) is None ==> forall|j: u8| #[trigger] keys.contains(j),
{
    lemma_free_key_from(keys, 0);
}

/// When the held keys are exactly those below `n`, the smallest free key is `n`.
pub proof fn lemma_first_free_key_after_prefix(keys: Set<u8>, n: u8)
    requires
        forall|j: u8| #[trigger] keys.contains(j) <==> j < n,
    ensures
        first_free_key(keys) == Some(n),
{
    lemma_first_free_key(keys);
    assert(!keys.contains(n));
    if let Some(k) = first_free_key(keys) {
        assert(!(k < n));
        if n < k {
            assert(keys.contains(n));
        }
    }
}

/// The generators of one store, by key; `id` names the store.
#[derive(Debug, Clone)]
pub struct GeneratorSave<G> {
    id: Option<(u8, TI)>,
    map: HashMap<u8, G>,
}

impl<G> GeneratorSave<G> {
    /// The store's name: a track and which of its stores, or none for the globals.
    pub closed spec fn store_id(&self) -> Option<(u8, TI)> {
        self.id
    }

    /// The generators held, by key.
    pub closed spec fn gens(&self) -> Map<u8, G> {
        self.map@
    }

    /// An empty store named `id`.
    pub fn new(id: Option<(u8, TI)>) -> (res: Self)
        ensures
            res.store_id() == id,
            res.gens() == Map::<u8, G>::empty(),
    {
        Self { id, map: HashMap::new() }
    }

    /// The generator under `key`, or `Error::Existence`.
    pub fn get(&self, key: u8) -> (res: Result<&G, Error>)
        ensures
            self.gens().contains_key(key) <==> res is Ok,
            res matches Ok(g) ==> *g == self.gens()[key],
            res matches Err(e) ==> e == Error::Existence,
    {
        broadcast use vstd::std_specs::hash::group_hash_axioms;
        match self.map.get(&key) {
            Some(gen) => Ok(gen),
            None => Err(Error::Existence),
        }
    }

    /// The generator under `key` to change in place, or `Error::Existence`.
    pub fn get_mut(&mut self, key: u8) -> (res: Result<&mut G, Error>)
        ensures
            old(self).gens().contains_key(key) <==> res is Ok,
            final(self).store_id() == old(self).store_id(),
            res matches Ok(g) ==> *g == old(self).gens()[key] && final(self).gens() == old(
                self,
            ).gens().insert(key, *final(g)),
            res matches Err(e) ==> e == Error::Existence && final(self).gens() == old(self).gens(),
    {
        broadcast use vstd::std_specs::hash::group_hash_axioms;
        match self.map.entry(key) {
            Entry::Occupied(e) => Ok(e.into_mut()),
            Entry::Vacant(_) => Err(Error::Existence),
        }
    }
}


impl<G> GeneratorSave<G> {
    /// The keys that hold a generator, in increasing order.
    pub fn keys(&self) -> (res: Vec<u8>)
        ensures
            forall|i: int, j: int| 0 <= i < j < res@.len() ==> res@[i] < res@[j],
            forall|k: u8| self.gens().contains_key(k) <==> res@.contains(k),
    {
        broadcast use vstd::std_specs::hash::group_hash_axioms;
        broadcast use vstd::seq_lib::lemma_seq_contains_after_push;
        let mut out: Vec<u8> = Vec::new();
        let mut key: u16 = 0;
        while key <= 255
            invariant
                0 <= key <= 256,
                forall|i: int, j: int| 0 <= i < j < out@.len() ==> out@[i] < out@[j],
                forall|i: int| 0 <= i < out@.len() ==> out@[i] < key,
                forall|k: u8| k < key ==> (self.gens().contains_key(k) <==> out@.contains(k)),
                forall|k: u8| out@.contains(k) ==> k < key,
            decreases 256 - key,
        {
            let k = key as u8;
            let ghost before = out@;
            if self.map.contains_key(&k) {
                out.push(k);
            }
            proof {
                assert forall|j: u8| j < key + 1 implies (self.gens().contains_key(j) <==> out@.contains(j)) by {
                    if before.contains(j) {
                        let idx = choose|idx: int| 0 <= idx < before.len() && before[idx] == j;
                        assert(out@[idx] == j);
                    }
                    if j < key {
                        if out@.contains(j) && !before.contains(j) {
                            let idx = choose|idx: int| 0 <= idx < out@.len() && out@[idx] == j;
                            assert(idx == before.len());
                        }
                    } else {
                        assert(j == k);
                        if self.gens().contains_key(k) {
                            assert(out@[before.len() as int] == k);
                        }
                    }
                }
            }
            key = key + 1;
        }
        out
    }

    /// The store's name.
    pub fn store(&self) -> (res: Option<(u8, TI)>)
        ensures
            res == self.store_id(),
    {
        self.id
    }
}

impl<G> GeneratorSave<G> {
    /// The generator under `key` to change in place; an empty generator is put
    /// under the key first when there is none.
    pub fn get_mut_or_new(&mut self, key: u8, empty: G) -> (res: &mut G)
        ensures
            final(self).store_id() == old(self).store_id(),
            *res == (if old(self).gens().contains_key(key) {
                old(self).gens()[key]
            } else {
                empty
            }),
            final(self).gens() == old(self).gens().insert(key, *final(res)),
    {
        broadcast use vstd::std_specs::hash::group_hash_axioms;
        match self.map.entry(key) {
            Entry::Occupied(e) => e.into_mut(),
            Entry::Vacant(e) => e.insert(empty),
        }
    }

    /// Stores `gen` under the smallest free key, after telling it the identifier
    /// that key has in this store; `Error::Overflow` when all 256 keys are taken.
    pub fn add_generator(&mut self, gen: G) -> (res: Result<GenId, Error>)
        where G: IdHolder,
        ensures
            final(self).store_id() == old(self).store_id(),
            match first_free_key(old(self).gens().dom()) {
                Some(k) => res == Ok::<GenId, Error>(spec_put_together(old(self).store_id(), k))
                    && exists|g: G| final(self).gens() == old(self).gens().insert(k, g),
                None => res == Err::<GenId, Error>(Error::Overflow) && final(self).gens() == old(
                    self,
                ).gens(),
            },
            G::obeys_id_law() ==> (first_free_key(old(self).gens().dom()) matches Some(k)
                ==> final(self).gens() == old(self).gens().insert(
                k,
                gen.with_id(spec_put_together(old(self).store_id(), k)),
            )),
    {
        broadcast use vstd::std_specs::hash::group_hash_axioms;
        proof {
            lemma_first_free_key(self.gens().dom());
        }
        let ghost given = gen;
        let mut held = gen;
        let mut key: u16 = 0;
        while key <= 255
            invariant
                0 <= key <= 256,
                self.gens() == old(self).gens(),
                self.store_id() == old(self).store_id(),
                held == given,
                given == gen,
                forall|j: u8| j < key ==> #[trigger] self.gens().dom().contains(j),
                first_free_key(self.gens().dom()) matches Some(k) ==> key <= k,
                first_free_key(self.gens().dom()) matches Some(k) ==> !self.gens().dom().contains(
                    k,
                ) && forall|j: u8| j < k ==> #[trigger] self.gens().dom().contains(j),
                first_free_key(self.gens().dom()) is None ==> forall|j: u8| #[trigger]
                    self.gens().dom().contains(j),
            decreases 256 - key,
        {
            let k = key as u8;
            if !self.map.contains_key(&k) {
                let id = GenId::put_together(self.id, k);
                held.set_id(id);
                proof {
                    assert(first_free_key(self.gens().dom()) == Some(k));
                    assert(G::obeys_id_law() ==> held == given.with_id(id));
                }
                self.map.insert(k, held);
                assert(G::obeys_id_law() ==> self.gens() == old(self).gens().insert(k, given.with_id(id)));
                return Ok(id);
            }
            key = key + 1;
        }
        Err(Error::Overflow)
    }
}

/// Generators gathered for an instrument description, by key, before they belong
/// to a track.
#[derive(Debug, Clone)]
pub struct GenSaveBuilder<G> {
    map: HashMap<u8, G>,
}

impl<G> GenSaveBuilder<G> {
    /// The generators held, by key.
    pub closed spec fn gens(&self) -> Map<u8, G> {
        self.map@
    }

    /// No generators.
    pub fn new() -> (res: Self)
        ensures
            res.gens() == Map::<u8, G>::empty(),
    {
        Self { map: HashMap::new() }
    }

    /// Stores `gen` under the smallest free key and gives that key;
    /// `Error::Overflow` when all 256 keys are taken.
    pub fn insert_gen(&mut self, gen: G) -> (res: Result<u8, Error>)
        ensures
            match first_free_key(old(self).gens().dom()) {
                Some(k) => res == Ok::<u8, Error>(k) && final(self).gens() == old(self).gens().insert(
                    k,
                    gen,
                ),
                None => res == Err::<u8, Error>(Error::Overflow) && final(self).gens() == old(
                    self,
                ).gens(),
            },
    {
        broadcast use vstd::std_specs::hash::group_hash_axioms;
        proof {
            lemma_first_free_key(self.gens().dom());
        }
        let mut key: u16 = 0;
        while key <= 255
            invariant
                0 <= key <= 256,
                self.gens() == old(self).gens(),
                forall|j: u8| j < key ==> #[trigger] self.gens().dom().contains(j),
                first_free_key(self.gens().dom()) matches Some(k) ==> key <= k,
                first_free_key(self.gens().dom()) matches Some(k) ==> !self.gens().dom().contains(
                    k,
                ) && forall|j: u8| j < k ==> #[trigger] self.gens().dom().contains(j),
                first_free_key(self.gens().dom()) is None ==> forall|j: u8| #[trigger]
                    self.gens().dom().contains(j),
            decreases 256 - key,
        {
            let k = key as u8;
            if !self.map.contains_key(&k) {
                self.map.insert(k, gen);
                return Ok(k);
            }
            key = key + 1;
        }
        Err(Error::Overflow)
    }

    /// The generators as the store of kind `kind` of the track `track_id`.
    pub fn as_generator_save(self, track_id: u8, kind: TI) -> (res: GeneratorSave<G>)
        ensures
            res.store_id() == Some((track_id, kind)),
            res.gens() == self.gens(),
    {
        GeneratorSave { id: Some((track_id, kind)), map: self.map }
    }

    /// The generators of a store, copied.
    pub fn from_save(save: &GeneratorSave<G>) -> (res: Self)
        where G: Clone,
        ensures
            res.gens() == save.gens(),
    {
        GenSaveBuilder { map: save.map.clone() }
    }
}

impl<G> Default for GenSaveBuilder<G> {
    fn default() -> (res: Self)
        ensures
            res.gens() == Map::<u8, G>::empty(),
    {
        Self::new()
    }
}


/// The generators of one track: its note-specific ones, its own store and its
/// instrument's store.
#[derive(Debug, Clone)]
pub struct TrackGManager<G> {
    track_id: u8,
    pub pitchbend: G,
    pub velocity: G,
    pub mod_wheel: G,
    pub track: GeneratorSave<G>,
    pub instr: GeneratorSave<G>,
}

impl<G> TrackGManager<G> {
    /// The track the generators belong to.
    pub closed spec fn spec_track_id(&self) -> u8 {
        self.track_id
    }

    /// The track's own store.
    pub closed spec fn track_save(&self) -> GeneratorSave<G> {
        self.track
    }

    /// The store of the track's instrument.
    pub closed spec fn instr_save(&self) -> GeneratorSave<G> {
        self.instr
    }

    /// The same generators with the instrument store replaced by `save`.
    pub closed spec fn with_instr(self, save: GeneratorSave<G>) -> Self {
        TrackGManager {
            track_id: self.track_id,
            pitchbend: self.pitchbend,
            velocity: self.velocity,
            mod_wheel: self.mod_wheel,
            track: self.track,
            instr: save,
        }
    }

    /// The track's own store and its instrument's store are named after the track
    /// `t`, which the generators belong to.
    pub open spec fn named_for(&self, t: u8) -> bool {
        &&& self.spec_track_id() == t
        &&& self.track_save().store_id() == Some((t, TI::Track))
        &&& self.instr_save().store_id() == Some((t, TI::Instr))
    }

    /// The note-specific generator of kind `kind`.
    pub closed spec fn specific(&self, kind: Specific) -> G {
        match kind {
            Specific::Vel => self.velocity,
            Specific::ModW => self.mod_wheel,
            Specific::Pitch => self.pitchbend,
        }
    }

    /// The generators of the track `id`: the three note-specific ones given, and
    /// empty own and instrument stores named after the track.
    pub fn new(id: u8, pitchbend: G, velocity: G, mod_wheel: G) -> (res: Self)
        ensures
            res.spec_track_id() == id,
            res.specific(Specific::Pitch) == pitchbend,
            res.specific(Specific::Vel) == velocity,
            res.specific(Specific::ModW) == mod_wheel,
            res.track_save().store_id() == Some((id, TI::Track)),
            res.track_save().gens() == Map::<u8, G>::empty(),
            res.instr_save().store_id() == Some((id, TI::Instr)),
            res.instr_save().gens() == Map::<u8, G>::empty(),
    {
        Self {
            track_id: id,
            pitchbend,
            velocity,
            mod_wheel,
            track: GeneratorSave::new(Some((id, TI::Track))),
            instr: GeneratorSave::new(Some((id, TI::Instr))),
        }
    }

    /// The note-specific generator of kind `kind`.
    pub fn get_specific(&self, kind: Specific) -> (res: &G)
        ensures
            *res == self.specific(kind),
    {
        match kind {
            Specific::Vel => &self.velocity,
            Specific::ModW => &self.mod_wheel,
            Specific::Pitch => &self.pitchbend,
        }
    }

    /// The note-specific generator of kind `kind`, to change in place.
    pub fn get_specific_mut(&mut self, kind: Specific) -> (res: &mut G)
        ensures
            *res == old(self).specific(kind),
            final(self).spec_track_id() == old(self).spec_track_id(),
            final(self).track_save() == old(self).track_save(),
            final(self).instr_save() == old(self).instr_save(),
            final(self).specific(kind) == *final(res),
            forall|other: Specific|
                other != kind ==> final(self).specific(other) == old(self).specific(other),
    {
        match kind {
            Specific::Vel => &mut self.velocity,
            Specific::ModW => &mut self.mod_wheel,
            Specific::Pitch => &mut self.pitchbend,
        }
    }
}


/// The generator under `key` in `save`, or `Error::Existence`.
pub open spec fn save_lookup<G>(save: GeneratorSave<G>, key: u8) -> Result<G, Error> {
    if save.gens().contains_key(key) {
        Ok(save.gens()[key])
    } else {
        Err(Error::Existence)
    }
}

/// All generators of a song: the global store and, per track, the track's
/// generators.
#[derive(Debug, Clone)]
pub struct GeneratorManager<G> {
    globals: GeneratorSave<G>,
    tracks: HashMap<u8, TrackGManager<G>>,
}

impl<G> GeneratorManager<G> {
    /// The global store.
    pub closed spec fn globals_save(&self) -> GeneratorSave<G> {
        self.globals
    }

    /// The generators of each track, by track.
    pub closed spec fn track_map(&self) -> Map<u8, TrackGManager<G>> {
        self.tracks@
    }

    /// The generator an identifier names, or why there is none: `Error::Unbound`
    /// for identifiers without a track, `Error::Existence` for a missing track or key.
    pub open spec fn lookup(&self, id: GenId) -> Result<G, Error> {
        match id {
            GenId::Global(key) => save_lookup(self.globals_save(), key),
            GenId::Track { track_id, key } => if self.track_map().contains_key(track_id) {
                save_lookup(self.track_map()[track_id].track_save(), key)
            } else {
                Err(Error::Existence)
            },
            GenId::Instr { track_id, key } => if self.track_map().contains_key(track_id) {
                save_lookup(self.track_map()[track_id].instr_save(), key)
            } else {
                Err(Error::Existence)
            },
            GenId::Specific { track_id, kind } => if self.track_map().contains_key(track_id) {
                Ok(self.track_map()[track_id].specific(kind))
            } else {
                Err(Error::Existence)
            },
            GenId::InstrExtracted { .. } => Err(Error::Unbound),
            GenId::SpecificExtracted { .. } => Err(Error::Unbound),
            GenId::Unbound => Err(Error::Unbound),
        }
    }

    /// Why an identifier cannot name a place for a generator, if it cannot: no
    /// track (`Error::Unbound`), or a track that is missing (`Error::Existence`).
    pub open spec fn slot_error(&self, id: GenId) -> Option<Error> {
        match id {
            GenId::Global(_) => None,
            GenId::Track { track_id, .. } => if self.track_map().contains_key(track_id) {
                None
            } else {
                Some(Error::Existence)
            },
            GenId::Instr { track_id, .. } => if self.track_map().contains_key(track_id) {
                None
            } else {
                Some(Error::Existence)
            },
            GenId::Specific { track_id, .. } => if self.track_map().contains_key(track_id) {
                None
            } else {
                Some(Error::Existence)
            },
            _ => Some(Error::Unbound),
        }
    }

    /// Every store is named after where it is kept: the global store has no track,
    /// and each track's stores are named after that track.
    pub open spec fn wf(&self) -> bool {
        &&& self.globals_save().store_id() is None
        &&& forall|t: u8| #[trigger] self.track_map().contains_key(t) ==> self.track_map()[t].named_for(t)
    }

    /// The same tracks, and every store keeps its name.
    pub open spec fn same_shape(&self, other: &Self) -> bool {
        &&& self.globals_save().store_id() == other.globals_save().store_id()
        &&& forall|t: u8| #[trigger] self.track_map().contains_key(t) <==> other.track_map().contains_key(t)
        &&& forall|t: u8| #[trigger] self.track_map().contains_key(t) ==> {
            &&& self.track_map()[t].spec_track_id() == other.track_map()[t].spec_track_id()
            &&& self.track_map()[t].track_save().store_id() == other.track_map()[t].track_save().store_id()
            &&& self.track_map()[t].instr_save().store_id() == other.track_map()[t].instr_save().store_id()
        }
    }

    /// No generators and no tracks.
    pub fn new() -> (res: Self)
        ensures
            res.wf(),
            res.globals_save().gens() == Map::<u8, G>::empty(),
            res.track_map() == Map::<u8, TrackGManager<G>>::empty(),
    {
        Self { globals: GeneratorSave::new(None), tracks: HashMap::new() }
    }

    /// The generator `id` names, or why there is none.
    pub fn get(&self, id: GenId) -> (res: Result<&G, Error>)
        ensures
            res is Ok <==> self.lookup(id) is Ok,
            res matches Ok(g) ==> self.lookup(id) == Ok::<G, Error>(*g),
            res matches Err(e) ==> self.lookup(id) == Err::<G, Error>(e),
    {
        broadcast use vstd::std_specs::hash::group_hash_axioms;
        match id {
            GenId::Global(key) => self.globals.get(key),
            GenId::Track { track_id, key } => match self.tracks.get(&track_id) {
                Some(tgm) => tgm.track.get(key),
                None => Err(Error::Existence),
            },
            GenId::Instr { track_id, key } => match self.tracks.get(&track_id) {
                Some(tgm) => tgm.instr.get(key),
                None => Err(Error::Existence),
            },
            GenId::InstrExtracted { key: _ } => Err(Error::Unbound),
            GenId::Specific { track_id, kind } => match self.tracks.get(&track_id) {
                Some(tgm) => Ok(tgm.get_specific(kind)),
                None => Err(Error::Existence),
            },
            GenId::SpecificExtracted { kind: _ } => Err(Error::Unbound),
            GenId::Unbound => Err(Error::Unbound),
        }
    }
}


impl<G> GeneratorManager<G> {
    /// The generator `id` names, to change in place, or why there is none.
    /// Changing it changes what `id` names and nothing else.
    pub fn get_mut(&mut self, id: GenId) -> (res: Result<&mut G, Error>)
        ensures
            res is Ok <==> old(self).lookup(id) is Ok,
            final(self).same_shape(old(self)),
            old(self).wf() ==> final(self).wf(),
            res matches Ok(g) ==> old(self).lookup(id) == Ok::<G, Error>(*g) && final(self).lookup(id)
                == Ok::<G, Error>(*final(g)),
            res matches Err(e) ==> old(self).lookup(id) == Err::<G, Error>(e) && final(self).lookup(id)
                == old(self).lookup(id),
            forall|i: GenId| i != id ==> #[trigger] final(self).lookup(i) == old(self).lookup(i),
    {
        broadcast use vstd::std_specs::hash::group_hash_axioms;
        match id {
            GenId::Global(key) => self.globals.get_mut(key),
            GenId::Track { track_id, key } => match self.tracks.entry(track_id) {
                Entry::Occupied(e) => e.into_mut().track.get_mut(key),
                Entry::Vacant(_) => Err(Error::Existence),
            },
            GenId::Instr { track_id, key } => match self.tracks.entry(track_id) {
                Entry::Occupied(e) => e.into_mut().instr.get_mut(key),
                Entry::Vacant(_) => Err(Error::Existence),
            },
            GenId::InstrExtracted { key: _ } => Err(Error::Unbound),
            GenId::Specific { track_id, kind } => match self.tracks.entry(track_id) {
                Entry::Occupied(e) => Ok(e.into_mut().get_specific_mut(kind)),
                Entry::Vacant(_) => Err(Error::Existence),
            },
            GenId::SpecificExtracted { kind: _ } => Err(Error::Unbound),
            GenId::Unbound => Err(Error::Unbound),
        }
    }
}


impl<G> GeneratorManager<G> {
    /// The generator `id` names, to change in place; under a track or global key
    /// that holds none, `empty` is put in first. Identifiers without a track give
    /// `Error::Unbound`, a missing track `Error::Existence`.
    pub fn get_mut_or_new(&mut self, id: GenId, empty: G) -> (res: Result<&mut G, Error>)
        ensures
            res is Ok <==> old(self).slot_error(id) is None,
            final(self).same_shape(old(self)),
            old(self).wf() ==> final(self).wf(),
            res matches Ok(g) ==> *g == (match old(self).lookup(id) {
                Ok(v) => v,
                Err(_) => empty,
            }) && final(self).lookup(id) == Ok::<G, Error>(*final(g)),
            res matches Err(e) ==> old(self).slot_error(id) == Some(e) && final(self).lookup(id)
                == old(self).lookup(id),
            forall|i: GenId| i != id ==> #[trigger] final(self).lookup(i) == old(self).lookup(i),
    {
        broadcast use vstd::std_specs::hash::group_hash_axioms;
        match id {
            GenId::Global(key) => Ok(self.globals.get_mut_or_new(key, empty)),
            GenId::Track { track_id, key } => match self.tracks.entry(track_id) {
                Entry::Occupied(e) => Ok(e.into_mut().track.get_mut_or_new(key, empty)),
                Entry::Vacant(_) => Err(Error::Existence),
            },
            GenId::Instr { track_id, key } => match self.tracks.entry(track_id) {
                Entry::Occupied(e) => Ok(e.into_mut().instr.get_mut_or_new(key, empty)),
                Entry::Vacant(_) => Err(Error::Existence),
            },
            GenId::InstrExtracted { key: _ } => Err(Error::Unbound),
            GenId::Specific { track_id, kind } => match self.tracks.entry(track_id) {
                Entry::Occupied(e) => Ok(e.into_mut().get_specific_mut(kind)),
                Entry::Vacant(_) => Err(Error::Existence),
            },
            GenId::SpecificExtracted { kind: _ } => Err(Error::Unbound),
            GenId::Unbound => Err(Error::Unbound),
        }
    }

    /// The generator an envelope is drawn from: only an instrument identifier can
    /// name one (else `Error::Type`), and it must exist (else `Error::Existence`).
    pub fn envelope_generator(&self, id: GenId) -> (res: Result<&G, Error>)
        ensures
            id is Instr ==> (res is Ok <==> self.lookup(id) is Ok) && (res matches Ok(g)
                ==> self.lookup(id) == Ok::<G, Error>(*g)) && (res matches Err(e) ==> self.lookup(id)
                == Err::<G, Error>(e)),
            !(id is Instr) ==> res == Err::<&G, Error>(Error::Type),
    {
        broadcast use vstd::std_specs::hash::group_hash_axioms;
        match id {
            GenId::Instr { track_id, key } => match self.tracks.get(&track_id) {
                Some(tgm) => tgm.instr.get(key),
                None => Err(Error::Existence),
            },
            _ => Err(Error::Type),
        }
    }

    /// Adds the track `id` with the three note-specific generators given and empty
    /// stores; a track that is already there is refused with `Error::Overwrite`.
    pub fn new_track(&mut self, id: u8, pitchbend: G, velocity: G, mod_wheel: G) -> (res: Result<(), Error>)
        ensures
            old(self).track_map().contains_key(id) ==> res == Err::<(), Error>(Error::Overwrite)
                && final(self).track_map() == old(self).track_map(),
            !old(self).track_map().contains_key(id) ==> res is Ok && final(self).track_map().dom()
                == old(self).track_map().dom().insert(id) && final(self).track_map()[id].named_for(id)
                && final(self).track_map()[id].specific(Specific::Pitch) == pitchbend
                && final(self).track_map()[id].specific(Specific::Vel) == velocity
                && final(self).track_map()[id].specific(Specific::ModW) == mod_wheel
                && final(self).track_map()[id].track_save().gens() == Map::<u8, G>::empty()
                && final(self).track_map()[id].instr_save().gens() == Map::<u8, G>::empty()
                && forall|t: u8| t != id && old(self).track_map().contains_key(t)
                    ==> #[trigger] final(self).track_map()[t] == old(self).track_map()[t],
            final(self).globals_save() == old(self).globals_save(),
            old(self).wf() ==> final(self).wf(),
    {
        broadcast use vstd::std_specs::hash::group_hash_axioms;
        if self.tracks.contains_key(&id) {
            return Err(Error::Overwrite);
        }
        self.tracks.insert(id, TrackGManager::new(id, pitchbend, velocity, mod_wheel));
        proof {
            if old(self).wf() {
                assert forall|t: u8| #[trigger] self.track_map().contains_key(t) implies self.track_map()[t].named_for(t) by {
                    if t != id {
                        assert(old(self).track_map().contains_key(t));
                    }
                }
            }
        }
        Ok(())
    }

    /// Stores `gen` under the smallest free key of the store of kind `kind` of the
    /// track `track_id`, as that store's `add_generator` does; a missing track gives
    /// `Error::Existence`.
    pub fn add_track_generator(&mut self, gen: G, track_id: u8, kind: TI) -> (res: Result<GenId, Error>)
        where G: IdHolder,
        ensures
            !old(self).track_map().contains_key(track_id) ==> res == Err::<GenId, Error>(Error::Existence)
                && final(self).track_map() == old(self).track_map(),
            old(self).track_map().contains_key(track_id) ==> {
                let save = match kind {
                    TI::Track => old(self).track_map()[track_id].track_save(),
                    TI::Instr => old(self).track_map()[track_id].instr_save(),
                };
                match first_free_key(save.gens().dom()) {
                    Some(k) => res == Ok::<GenId, Error>(spec_put_together(save.store_id(), k)),
                    None => res == Err::<GenId, Error>(Error::Overflow),
                }
            },
            final(self).same_shape(old(self)),
            final(self).globals_save() == old(self).globals_save(),
            old(self).wf() ==> final(self).wf(),
            old(self).wf() ==> (res matches Ok(id) ==> old(self).lookup(id) is Err && final(self).lookup(id) is Ok && forall|i: GenId|
                i != id ==> #[trigger] final(self).lookup(i) == old(self).lookup(i)),
            old(self).wf() && G::obeys_id_law() ==> (res matches Ok(id) ==> final(self).lookup(id)
                == Ok::<G, Error>(gen.with_id(id))),
            res is Err ==> forall|i: GenId| #[trigger] final(self).lookup(i) == old(self).lookup(i),
    {
        broadcast use vstd::std_specs::hash::group_hash_axioms;
        match self.tracks.entry(track_id) {
            Entry::Occupied(e) => {
                let tgm = e.into_mut();
                proof {
                    lemma_first_free_key(tgm.track.gens().dom());
                    lemma_first_free_key(tgm.instr.gens().dom());
                }
                match kind {
                    TI::Track => tgm.track.add_generator(gen),
                    TI::Instr => tgm.instr.add_generator(gen),
                }
            },
            Entry::Vacant(_) => Err(Error::Existence),
        }
    }

    /// The global store.
    pub fn global_save(&self) -> (res: &GeneratorSave<G>)
        ensures
            *res == self.globals_save(),
    {
        &self.globals
    }

    /// The tracks that have generators, in increasing order.
    pub fn track_ids(&self) -> (res: Vec<u8>)
        ensures
            forall|i: int, j: int| 0 <= i < j < res@.len() ==> res@[i] < res@[j],
            forall|t: u8| self.track_map().contains_key(t) <==> res@.contains(t),
    {
        broadcast use vstd::std_specs::hash::group_hash_axioms;
        broadcast use vstd::seq_lib::lemma_seq_contains_after_push;
        let mut out: Vec<u8> = Vec::new();
        let mut t: u16 = 0;
        while t <= 255
            invariant
                0 <= t <= 256,
                forall|i: int, j: int| 0 <= i < j < out@.len() ==> out@[i] < out@[j],
                forall|i: int| 0 <= i < out@.len() ==> out@[i] < t,
                forall|k: u8| k < t ==> (self.track_map().contains_key(k) <==> out@.contains(k)),
                forall|k: u8| out@.contains(k) ==> k < t,
            decreases 256 - t,
        {
            let k = t as u8;
            let ghost before = out@;
            if self.tracks.contains_key(&k) {
                out.push(k);
            }
            proof {
                assert forall|j: u8| j < t + 1 implies (self.track_map().contains_key(j) <==> out@.contains(j)) by {
                    if before.contains(j) {
                        let idx = choose|idx: int| 0 <= idx < before.len() && before[idx] == j;
                        assert(out@[idx] == j);
                    }
                    if j < t {
                        if out@.contains(j) && !before.contains(j) {
                            let idx = choose|idx: int| 0 <= idx < out@.len() && out@[idx] == j;
                            assert(idx == before.len());
                        }
                    } else {
                        assert(j == k);
                        if self.track_map().contains_key(k) {
                            assert(out@[before.len() as int] == k);
                        }
                    }
                }
            }
            t = t + 1;
        }
        out
    }

    /// The track's own store of the track `track_id`, or `Error::Existence`.
    pub fn get_track_save(&self, track_id: u8) -> (res: Result<&GeneratorSave<G>, Error>)
        ensures
            self.track_map().contains_key(track_id) <==> res is Ok,
            res matches Ok(save) ==> *save == self.track_map()[track_id].track_save(),
            res matches Err(e) ==> e == Error::Existence,
    {
        broadcast use vstd::std_specs::hash::group_hash_axioms;
        match self.tracks.get(&track_id) {
            Some(tgm) => Ok(&tgm.track),
            None => Err(Error::Existence),
        }
    }

    /// The instrument store of the track `track_id`, or `Error::Existence`.
    pub fn get_instr_save(&self, track_id: u8) -> (res: Result<&GeneratorSave<G>, Error>)
        ensures
            self.track_map().contains_key(track_id) <==> res is Ok,
            res matches Ok(save) ==> *save == self.track_map()[track_id].instr_save(),
            res matches Err(e) ==> e == Error::Existence,
    {
        broadcast use vstd::std_specs::hash::group_hash_axioms;
        match self.tracks.get(&track_id) {
            Some(tgm) => Ok(&tgm.instr),
            None => Err(Error::Existence),
        }
    }

    /// The instrument store of the track `track_id`, to change or replace in place,
    /// or `Error::Existence`.
    pub fn get_mut_instr_save(&mut self, track_id: u8) -> (res: Result<&mut GeneratorSave<G>, Error>)
        ensures
            old(self).track_map().contains_key(track_id) <==> res is Ok,
            final(self).globals_save() == old(self).globals_save(),
            res matches Ok(save) ==> *save == old(self).track_map()[track_id].instr_save()
                && final(self).track_map() == old(self).track_map().insert(
                track_id,
                old(self).track_map()[track_id].with_instr(*final(save)),
            ),
            res matches Err(e) ==> e == Error::Existence && final(self).track_map() == old(self).track_map(),
    {
        broadcast use vstd::std_specs::hash::group_hash_axioms;
        match self.tracks.entry(track_id) {
            Entry::Occupied(e) => Ok(&mut e.into_mut().instr),
            Entry::Vacant(_) => Err(Error::Existence),
        }
    }
}

impl<G> Default for GeneratorManager<G> {
    fn default() -> (res: Self)
        ensures
            res.wf(),
            res.globals_save().gens() == Map::<u8, G>::empty(),
            res.track_map() == Map::<u8, TrackGManager<G>>::empty(),
    {
        Self::new()
    }
}


/// The track an identifier belongs to, if it names one.
pub open spec fn id_track(id: GenId) -> Option<u8> {
    match id {
        GenId::Track { track_id, .. } => Some(track_id),
        GenId::Instr { track_id, .. } => Some(track_id),
        GenId::Specific { track_id, .. } => Some(track_id),
        _ => None,
    }
}

/// The generator given last for the controller `k` among `channels`, if any.
pub open spec fn channel_of<G>(channels: Seq<(u8, G)>, k: u8) -> Option<G>
    decreases channels.len(),
{
    if channels.len() == 0 {
        None
    } else if channels.last().0 == k {
        Some(channels.last().1)
    } else {
        channel_of(channels.drop_last(), k)
    }
}

/// No controller is given twice.
pub open spec fn distinct_channels<G>(channels: Seq<(u8, G)>) -> bool {
    forall|i: int, j: int| 0 <= i < j < channels.len() ==> #[trigger] channels[i].0 != #[trigger] channels[j].0
}

/// A controller that none of `channels` names has no generator among them.
proof fn lemma_channel_absent<G>(channels: Seq<(u8, G)>, k: u8)
    requires
        forall|j: int| 0 <= j < channels.len() ==> #[trigger] channels[j].0 != k,
    ensures
        channel_of(channels, k) is None,
    decreases channels.len(),
{
    if channels.len() > 0 {
        assert(channels.last().0 != k);
        assert forall|j: int| 0 <= j < channels.drop_last().len() implies #[trigger] channels.drop_last()[j].0 != k by {
            assert(channels.drop_last()[j] == channels[j]);
        }
        lemma_channel_absent(channels.drop_last(), k);
    }
}

/// What the track store of a newly read track holds under `k`: the generator of
/// controller `k` told its identifier, for every controller but the mod wheel's.
pub open spec fn read_channel<G: IdHolder>(channels: Seq<(u8, G)>, track_id: u8, k: u8) -> Result<G, Error> {
    match channel_of(channels, k) {
        Some(g) => if k != 1 {
            Ok(g.with_id(GenId::Track { track_id, key: k }))
        } else {
            Err(Error::Existence)
        },
        None => Err(Error::Existence),
    }
}

/// Sets up the generators of a newly read MIDI track `track_id`: the track comes
/// in with `default_pitch`, `default_vel` and `default_mod` as its note-specific
/// generators; the generator of controller 1 becomes its mod wheel, the
/// generator of each other controller goes into the track's store under the
/// controller's number; `bend`, if there is one, becomes its pitch bend, and
/// `vel` its velocity. Each generator is told the identifier it is stored under
/// before it is stored, and so is the default pitch bend where it stays.
pub fn add_track_generators<G: IdHolder>(
    manager: &mut GeneratorManager<G>,
    track_id: u8,
    channels: Vec<(u8, G)>,
    bend: Option<G>,
    vel: G,
    default_pitch: G,
    default_vel: G,
    default_mod: G,
) -> (res: Result<(), Error>)
    requires
        !old(manager).track_map().contains_key(track_id),
        distinct_channels(channels@),
    ensures
        res is Ok,
        final(manager).track_map().dom() == old(manager).track_map().dom().insert(track_id),
        old(manager).wf() ==> final(manager).wf(),
        forall|id: GenId| id_track(id) != Some(track_id) ==> #[trigger] final(manager).lookup(id) == old(manager).lookup(id),
        forall|k: u8| #[trigger] final(manager).lookup(GenId::Instr { track_id, key: k }) == Err::<G, Error>(Error::Existence),
        forall|k: u8| (#[trigger] final(manager).lookup(GenId::Track { track_id, key: k }) is Ok) <==> (k != 1
            && channel_of(channels@, k) is Some),
        final(manager).lookup(GenId::Specific { track_id, kind: Specific::ModW }) is Ok,
        final(manager).lookup(GenId::Specific { track_id, kind: Specific::Pitch }) is Ok,
        final(manager).lookup(GenId::Specific { track_id, kind: Specific::Vel }) is Ok,
        G::obeys_id_law() ==> {
            &&& forall|k: u8| #[trigger] final(manager).lookup(GenId::Track { track_id, key: k }) == read_channel(channels@, track_id, k)
            &&& final(manager).lookup(GenId::Specific { track_id, kind: Specific::ModW }) == Ok::<G, Error>(
                match channel_of(channels@, 1) {
                    Some(g) => g.with_id(GenId::Specific { track_id, kind: Specific::ModW }),
                    None => default_mod,
                },
            )
            &&& final(manager).lookup(GenId::Specific { track_id, kind: Specific::Pitch }) == Ok::<G, Error>(
                match bend {
                    Some(b) => b.with_id(GenId::Specific { track_id, kind: Specific::Pitch }),
                    None => default_pitch.with_id(GenId::Specific { track_id, kind: Specific::Pitch }),
                },
            )
            &&& final(manager).lookup(GenId::Specific { track_id, kind: Specific::Vel }) == Ok::<G, Error>(
                vel.with_id(GenId::Specific { track_id, kind: Specific::Vel }),
            )
        },
{
    let ghost old_manager = *manager;
    let ghost cs = channels@;
    let modw = GenId::Specific { track_id, kind: Specific::ModW };
    let _ = manager.new_track(track_id, default_pitch, default_vel, default_mod);
    proof {
        assert forall|id: GenId| id_track(id) != Some(track_id) implies #[trigger] manager.lookup(id) == old_manager.lookup(id) by {
            match id {
                GenId::Track { track_id: t, .. } => assert(t != track_id),
                GenId::Instr { track_id: t, .. } => assert(t != track_id),
                GenId::Specific { track_id: t, .. } => assert(t != track_id),
                _ => {},
            }
        }
    }
    let ghost dom = manager.track_map().dom();
    let mut channels = channels;
    let mut i: usize = 0;
    proof {
        assert(cs.skip(0) =~= cs);
        assert(cs.len() == channels.len());
    }
    while channels.len() > 0
        invariant
            0 <= i <= cs.len(),
            cs.len() <= usize::MAX,
            channels@ == cs.skip(i as int),
            distinct_channels(cs),
            manager.track_map().dom() == dom,
            dom.contains(track_id),
            old_manager.wf() ==> manager.wf(),
            forall|id: GenId| id_track(id) != Some(track_id) ==> #[trigger] manager.lookup(id) == old_manager.lookup(id),
            forall|k: u8| #[trigger] manager.lookup(GenId::Instr { track_id, key: k }) == Err::<G, Error>(Error::Existence),
            forall|k: u8| (#[trigger] manager.lookup(GenId::Track { track_id, key: k }) is Ok) <==> (k != 1
                && channel_of(cs.take(i as int), k) is Some),
            manager.lookup(GenId::Specific { track_id, kind: Specific::Pitch }) == Ok::<G, Error>(default_pitch),
            manager.lookup(GenId::Specific { track_id, kind: Specific::Vel }) == Ok::<G, Error>(default_vel),
            manager.lookup(modw) is Ok,
            modw == (GenId::Specific { track_id, kind: Specific::ModW }),
            G::obeys_id_law() ==> {
                &&& forall|k: u8| #[trigger] manager.lookup(GenId::Track { track_id, key: k }) == read_channel(cs.take(i as int), track_id, k)
                &&& manager.lookup(modw) == Ok::<G, Error>(
                    match channel_of(cs.take(i as int), 1) {
                        Some(g) => g.with_id(modw),
                        None => default_mod,
                    },
                )
            },
        decreases channels@.len(),
    {
        assert(channels@.len() == cs.len() - i);
        let ghost pre = cs.take(i as int);
        let ghost post = cs.take(i + 1);
        let (k, g) = channels.remove(0);
        proof {
            assert(cs.skip(i as int)[0] == cs[i as int]);
            assert(cs.skip(i as int).remove(0) =~= cs.skip(i + 1));
            assert(post.drop_last() =~= pre);
            assert(post.last() == cs[i as int]);
            assert forall|j: int| 0 <= j < pre.len() implies #[trigger] pre[j].0 != k by {
                assert(pre[j] == cs[j]);
            }
            lemma_channel_absent(pre, k);
        }
        let mut g = g;
        if k == 1 {
            g.set_id(modw);
            match manager.get_mut(modw) {
                Ok(slot) => {
                    *slot = g;
                },
                Err(_) => {},
            }
        } else {
            let id = GenId::put_together(Some((track_id, TI::Track)), k);
            g.set_id(id);
            let _ = manager.get_mut_or_new(id, g);
        }
        proof {
            assert(manager.track_map().dom() =~= dom);
        }
        i = i + 1;
    }
    proof {
        assert(cs.take(i as int) =~= cs);
    }
    let pitch = GenId::Specific { track_id, kind: Specific::Pitch };
    match bend {
        Some(b) => {
            let mut b = b;
            b.set_id(pitch);
            match manager.get_mut(pitch) {
                Ok(slot) => {
                    *slot = b;
                },
                Err(_) => {},
            }
        },
        None => match manager.get_mut(pitch) {
            Ok(slot) => {
                slot.set_id(pitch);
            },
            Err(_) => {},
        },
    }
    proof {
        assert(manager.track_map().dom() =~= dom);
    }
    let velocity = GenId::Specific { track_id, kind: Specific::Vel };
    let mut vel = vel;
    vel.set_id(velocity);
    match manager.get_mut(velocity) {
        Ok(slot) => {
            *slot = vel;
        },
        Err(_) => {},
    }
    proof {
        assert(manager.track_map().dom() =~= dom);
    }
    Ok(())
}

} // verus!
