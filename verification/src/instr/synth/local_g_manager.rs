use vstd::prelude::*;

use crate::ctrl_f::{GenId, GeneratorManager, SaveId};
use crate::gens::lemma_first_free_key_after_prefix;
use crate::Error;

verus! {

/// The generator identifiers a synthesizer uses, bound to its track once set up.
#[derive(Debug)]
pub struct LocalGManager {
    track_id: Option<u8>,
    main_enevelope: GenId,
    alt_enevelope: GenId,
    lfo_1: GenId,
    lfo_2: GenId,
    velocity: GenId,
    pitch_wheel: GenId,
    mod_wheel: GenId,
}

impl LocalGManager {
    /// The track the identifiers are bound to, if any.
    pub closed spec fn spec_track_id(&self) -> Option<u8> {
        self.track_id
    }

    /// The identifiers held: main and second envelope, the two LFOs, velocity,
    /// pitch wheel and modulation wheel.
    pub closed spec fn ids(&self) -> (GenId, GenId, GenId, GenId, GenId, GenId, GenId) {
        (
            self.main_enevelope,
            self.alt_enevelope,
            self.lfo_1,
            self.lfo_2,
            self.velocity,
            self.pitch_wheel,
            self.mod_wheel,
        )
    }

    /// No track, and every identifier unbound.
    pub fn new() -> (res: Self)
        ensures
            res.spec_track_id() is None,
            res.ids() == (
                GenId::Unbound,
                GenId::Unbound,
                GenId::Unbound,
                GenId::Unbound,
                GenId::Unbound,
                GenId::Unbound,
                GenId::Unbound,
            ),
    {
        Self {
            track_id: None,
            main_enevelope: GenId::Unbound,
            alt_enevelope: GenId::Unbound,
            lfo_1: GenId::Unbound,
            lfo_2: GenId::Unbound,
            velocity: GenId::Unbound,
            pitch_wheel: GenId::Unbound,
            mod_wheel: GenId::Unbound,
        }
    }

    /// The global key `key`.
    pub fn get_global(&self, key: u8) -> (res: GenId)
        ensures
            res == GenId::Global(key),
    {
        GenId::Global(key)
    }

    /// The key `key` of the track's own store; `Error::Unintialised` without a track.
    pub fn get_local(&self, key: u8) -> (res: Result<GenId, Error>)
        ensures
            match self.spec_track_id() {
                Some(track) => res == Ok::<GenId, Error>(GenId::Track { track, key }),
                None => res == Err::<GenId, Error>(Error::Unintialised),
            },
    {
        match self.track_id {
            Some(track) => Ok(GenId::Track { track, key }),
            None => Err(Error::Unintialised),
        }
    }

    /// The key `key` of the instrument's store; `Error::Unintialised` without a track.
    pub fn get_instr(&self, key: u8) -> (res: Result<GenId, Error>)
        ensures
            match self.spec_track_id() {
                Some(track) => res == Ok::<GenId, Error>(GenId::Instr { track, key }),
                None => res == Err::<GenId, Error>(Error::Unintialised),
            },
    {
        match self.track_id {
            Some(track) => Ok(GenId::Instr { track, key }),
            None => Err(Error::Unintialised),
        }
    }

    /// Adds the track `id` to `manager` and stores the synthesizer's generators
    /// there: the two envelopes and the two LFOs in the instrument store under keys
    /// 0 to 3, velocity, modulation wheel and pitch wheel in the track's store
    /// under keys 0 to 2. A track that is already there is refused with
    /// `Error::Overwrite`. The manager's own track stays as it was.
    pub fn init<G>(
        &mut self,
        manager: &mut GeneratorManager<G>,
        id: u8,
        envelope: G,
        alt_envelope: G,
        lfo_1: G,
        lfo_2: G,
        velocity: G,
        mod_wheel: G,
        pitch_wheel: G,
    ) -> (res: Result<(), Error>)
        ensures
            final(self).spec_track_id() == old(self).spec_track_id(),
            old(manager).track_map().contains_key(id) ==> res == Err::<(), Error>(Error::Overwrite)
                && final(self).ids() == old(self).ids() && final(manager).track_map() == old(
                manager,
            ).track_map(),
            !old(manager).track_map().contains_key(id) ==> res is Ok && final(self).ids() == (
                GenId::Instr { track: id, key: 0 },
                GenId::Instr { track: id, key: 1 },
                GenId::Instr { track: id, key: 2 },
                GenId::Instr { track: id, key: 3 },
                GenId::Track { track: id, key: 0 },
                GenId::Track { track: id, key: 2 },
                GenId::Track { track: id, key: 1 },
            ) && final(manager).track_map().dom() == old(manager).track_map().dom().insert(id)
                && final(manager).save_gens(SaveId::Instr(id)) == map![
                0u8 => envelope, 1u8 => alt_envelope, 2u8 => lfo_1, 3u8 => lfo_2]
                && final(manager).save_gens(SaveId::Track(id)) == map![
                0u8 => velocity, 1u8 => mod_wheel, 2u8 => pitch_wheel],
    {
        let instr = SaveId::Instr(id);
        let track = SaveId::Track(id);
        manager.new_track(id)?;
        let ghost empty_track = manager.save_gens(track);
        proof {
            assert(empty_track == Map::<u8, G>::empty());
            assert(manager.save_keys(instr) == Ok::<Set<u8>, Error>(Set::empty()));
            lemma_first_free_key_after_prefix(Set::empty(), 0);
        }
        let main = manager.add_generator(envelope, instr);
        proof {
            assert(manager.save_keys(instr) == Ok::<Set<u8>, Error>(set![0u8]));
            lemma_first_free_key_after_prefix(set![0u8], 1);
        }
        assert(manager.save_gens(track) == empty_track);
        let alt = manager.add_generator(alt_envelope, instr);
        proof {
            assert(manager.save_keys(instr) == Ok::<Set<u8>, Error>(set![0u8, 1u8]));
            lemma_first_free_key_after_prefix(set![0u8, 1u8], 2);
        }
        assert(manager.save_gens(track) == empty_track);
        let first_lfo = manager.add_generator(lfo_1, instr);
        proof {
            assert(manager.save_keys(instr) == Ok::<Set<u8>, Error>(set![0u8, 1u8, 2u8]));
            lemma_first_free_key_after_prefix(set![0u8, 1u8, 2u8], 3);
            assert(manager.save_gens(track).dom() =~= Set::<u8>::empty());
            assert(manager.save_keys(track) == Ok::<Set<u8>, Error>(Set::empty()));
        }
        assert(manager.save_gens(track) == empty_track);
        let second_lfo = manager.add_generator(lfo_2, instr);
        assert(manager.save_gens(track) == empty_track);
        let vel = manager.add_generator(velocity, track);
        proof {
            assert(manager.save_keys(track) == Ok::<Set<u8>, Error>(set![0u8]));
        }
        let modw = manager.add_generator(mod_wheel, track);
        proof {
            assert(manager.save_keys(track) == Ok::<Set<u8>, Error>(set![0u8, 1u8]));
        }
        let pitch = manager.add_generator(pitch_wheel, track);
        self.main_enevelope = main?;
        self.alt_enevelope = alt?;
        self.lfo_1 = first_lfo?;
        self.lfo_2 = second_lfo?;
        self.velocity = vel?;
        self.mod_wheel = modw?;
        self.pitch_wheel = pitch?;
        Ok(())
    }
}

impl Default for LocalGManager {
    fn default() -> (res: Self)
        ensures
            res.spec_track_id() is None,
    {
        Self::new()
    }
}

} // verus!
