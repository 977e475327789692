use song::gens::{GenId, GenSaveBuilder, GeneratorManager, GeneratorSave, IdHolder, Specific, TI};
use song::ctrl_f::{GenId as OldId, GeneratorManager as OldManager, SaveId};
use song::instr::synth::local_g_manager::LocalGManager;
use song::Error;

#[derive(Debug, Clone, PartialEq)]
struct Gen {
    id: GenId,
    value: u32,
}

impl IdHolder for Gen {
    fn set_id(&mut self, id: GenId) {
        self.id = id;
    }
}

fn gen(value: u32) -> Gen {
    Gen { id: GenId::Unbound, value }
}

#[test]
fn extract_takes_the_track_out() {
    let instr = GenId::Instr { track_id: 3, key: 7 };
    assert_eq!(instr.extract(), Ok(GenId::InstrExtracted { key: 7 }));
    let spec = GenId::Specific { track_id: 3, kind: Specific::Vel };
    assert_eq!(spec.extract(), Ok(GenId::SpecificExtracted { kind: Specific::Vel }));
    assert_eq!(GenId::InstrExtracted { key: 2 }.extract(), Ok(GenId::InstrExtracted { key: 2 }));
    assert_eq!(GenId::Global(1).extract(), Err(Error::Type));
    assert_eq!(GenId::Track { track_id: 1, key: 1 }.extract(), Err(Error::Type));
    assert_eq!(GenId::Unbound.extract(), Err(Error::Unbound));
}

#[test]
fn set_id_binds_to_a_track() {
    let mut id = GenId::InstrExtracted { key: 4 };
    id.set_id(9);
    assert_eq!(id, GenId::Instr { track_id: 9, key: 4 });
    id.set_id(2);
    assert_eq!(id, GenId::Instr { track_id: 2, key: 4 });
    let mut s = GenId::SpecificExtracted { kind: Specific::Pitch };
    s.set_id(5);
    assert_eq!(s, GenId::Specific { track_id: 5, kind: Specific::Pitch });
    let mut g = GenId::Global(3);
    g.set_id(5);
    assert_eq!(g, GenId::Global(3));
    let mut u = GenId::Unbound;
    u.set_id(5);
    assert_eq!(u, GenId::Unbound);
    let mut t = GenId::Track { track_id: 1, key: 6 };
    t.set_id(8);
    assert_eq!(t, GenId::Track { track_id: 8, key: 6 });
}

#[test]
fn set_id_twice_is_the_second_binding() {
    let mut a = GenId::SpecificExtracted { kind: Specific::ModW };
    a.set_id(1);
    a.set_id(4);
    let mut b = GenId::SpecificExtracted { kind: Specific::ModW };
    b.set_id(4);
    assert_eq!(a, b);
}

#[test]
fn extract_then_bind_restores() {
    let id = GenId::Instr { track_id: 3, key: 7 };
    let mut back = id.extract().unwrap();
    back.set_id(3);
    assert_eq!(back, id);
}

#[test]
fn put_together_names_the_store() {
    assert_eq!(GenId::put_together(Some((2, TI::Track)), 5), GenId::Track { track_id: 2, key: 5 });
    assert_eq!(GenId::put_together(Some((2, TI::Instr)), 5), GenId::Instr { track_id: 2, key: 5 });
    assert_eq!(GenId::put_together(None, 5), GenId::Global(5));
    assert_eq!(GenId::put_together(Some((2, TI::Instr)), 5).extract(), Ok(GenId::InstrExtracted { key: 5 }));
    assert_eq!(GenId::default(), GenId::Unbound);
}

#[test]
fn save_fills_smallest_free_key() {
    let mut save: GeneratorSave<Gen> = GeneratorSave::new(Some((4, TI::Instr)));
    assert_eq!(save.add_generator(gen(10)), Ok(GenId::Instr { track_id: 4, key: 0 }));
    assert_eq!(save.add_generator(gen(11)), Ok(GenId::Instr { track_id: 4, key: 1 }));
    assert_eq!(save.get(1).unwrap().id, GenId::Instr { track_id: 4, key: 1 });
    assert_eq!(save.get(1).unwrap().value, 11);
    assert_eq!(save.get(2).err(), Some(Error::Existence));
    save.get_mut(0).unwrap().value = 99;
    assert_eq!(save.get(0).unwrap().value, 99);
    let g = save.get_mut_or_new(5, gen(55));
    assert_eq!(g.value, 55);
    assert_eq!(save.add_generator(gen(12)), Ok(GenId::Instr { track_id: 4, key: 2 }));
}

#[test]
fn save_overflows_after_all_keys() {
    let mut save: GeneratorSave<Gen> = GeneratorSave::new(None);
    for k in 0..256u32 {
        assert_eq!(save.add_generator(gen(k)), Ok(GenId::Global(k as u8)));
    }
    assert_eq!(save.add_generator(gen(0)), Err(Error::Overflow));
}

#[test]
fn builder_inserts_then_becomes_a_save() {
    let mut b: GenSaveBuilder<Gen> = GenSaveBuilder::new();
    assert_eq!(b.insert_gen(gen(1)), Ok(0));
    assert_eq!(b.insert_gen(gen(2)), Ok(1));
    let save = b.as_generator_save(6, TI::Instr);
    assert_eq!(save.get(1).unwrap().value, 2);
    let copy = GenSaveBuilder::from_save(&save);
    let save2 = copy.as_generator_save(7, TI::Track);
    assert_eq!(save2.get(0).unwrap().value, 1);
}

#[test]
fn manager_tracks_and_lookups() {
    let mut m: GeneratorManager<Gen> = GeneratorManager::new();
    assert_eq!(m.get(GenId::Track { track_id: 1, key: 0 }).err(), Some(Error::Existence));
    assert_eq!(m.get(GenId::Unbound).err(), Some(Error::Unbound));
    assert_eq!(m.get(GenId::InstrExtracted { key: 0 }).err(), Some(Error::Unbound));
    assert_eq!(m.new_track(1, gen(100), gen(101), gen(102)), Ok(()));
    assert_eq!(m.new_track(1, gen(0), gen(0), gen(0)), Err(Error::Overwrite));
    assert_eq!(m.get(GenId::Specific { track_id: 1, kind: Specific::Pitch }).unwrap().value, 100);
    assert_eq!(m.get(GenId::Specific { track_id: 1, kind: Specific::Vel }).unwrap().value, 101);
    assert_eq!(m.get(GenId::Specific { track_id: 1, kind: Specific::ModW }).unwrap().value, 102);
    assert_eq!(m.add_track_generator(gen(7), 1, TI::Track), Ok(GenId::Track { track_id: 1, key: 0 }));
    assert_eq!(m.add_track_generator(gen(8), 1, TI::Instr), Ok(GenId::Instr { track_id: 1, key: 0 }));
    assert_eq!(m.add_track_generator(gen(9), 2, TI::Instr), Err(Error::Existence));
    assert_eq!(m.get(GenId::Track { track_id: 1, key: 0 }).unwrap().value, 7);
    assert_eq!(m.get(GenId::Track { track_id: 1, key: 0 }).unwrap().id, GenId::Track { track_id: 1, key: 0 });
    m.get_mut(GenId::Instr { track_id: 1, key: 0 }).unwrap().value = 80;
    assert_eq!(m.get(GenId::Instr { track_id: 1, key: 0 }).unwrap().value, 80);
    assert_eq!(m.envelope_generator(GenId::Instr { track_id: 1, key: 0 }).unwrap().value, 80);
    assert_eq!(m.envelope_generator(GenId::Global(0)).err(), Some(Error::Type));
    assert_eq!(m.envelope_generator(GenId::Instr { track_id: 1, key: 9 }).err(), Some(Error::Existence));
    assert_eq!(m.get_mut_or_new(GenId::Global(3), gen(33)).unwrap().value, 33);
    assert_eq!(m.get(GenId::Global(3)).unwrap().value, 33);
    assert_eq!(m.get_mut_or_new(GenId::Track { track_id: 4, key: 0 }, gen(0)).err(), Some(Error::Existence));
    assert_eq!(m.get_mut_or_new(GenId::Unbound, gen(0)).err(), Some(Error::Unbound));
    assert!(m.get_instr_save(1).is_ok());
    assert_eq!(m.get_instr_save(2).err(), Some(Error::Existence));
    *m.get_mut_instr_save(1).unwrap() = GeneratorSave::new(Some((1, TI::Instr)));
    assert_eq!(m.get(GenId::Instr { track_id: 1, key: 0 }).err(), Some(Error::Existence));
}

#[test]
fn local_manager_init_fills_both_stores() {
    let mut m: OldManager<Gen> = OldManager::new();
    let mut local = LocalGManager::new();
    assert_eq!(local.get_local(0), Err(Error::Unintialised));
    assert_eq!(local.get_instr(0), Err(Error::Unintialised));
    assert_eq!(local.get_global(4), OldId::Global(4));
    let r = local.init(&mut m, 3, gen(1), gen(2), gen(3), gen(4), gen(5), gen(6), gen(7));
    assert_eq!(r, Ok(()));
    // four instrument generators and three track generators are in place
    assert_eq!(m.add_generator(gen(8), SaveId::Instr(3)), Ok(OldId::Instr { track: 3, key: 4 }));
    assert_eq!(m.add_generator(gen(9), SaveId::Track(3)), Ok(OldId::Track { track: 3, key: 3 }));
    // the manager's own track is not set by init
    assert_eq!(local.get_local(0), Err(Error::Unintialised));
    let again = local.init(&mut m, 3, gen(1), gen(2), gen(3), gen(4), gen(5), gen(6), gen(7));
    assert_eq!(again, Err(Error::Overwrite));
}

#[test]
fn old_manager_stores_and_errors() {
    let mut m: OldManager<Gen> = OldManager::default();
    assert_eq!(m.add_generator(gen(0), SaveId::Unbound), Err(Error::Unbound));
    assert_eq!(m.add_generator(gen(0), SaveId::Track(1)), Err(Error::Existence));
    assert_eq!(m.add_generator(gen(0), SaveId::Global), Ok(OldId::Global(0)));
    assert_eq!(m.add_generator(gen(0), SaveId::Global), Ok(OldId::Global(1)));
    assert_eq!(m.new_track(1), Ok(()));
    assert_eq!(m.new_track(1), Err(Error::Overwrite));
    assert_eq!(m.add_generator(gen(0), SaveId::Track(1)), Ok(OldId::Track { track: 1, key: 0 }));
}

#[test]
fn old_ids_split_and_join() {
    let id = OldId::Instr { track: 2, key: 9 };
    let (save, key) = id.decompose().unwrap();
    assert_eq!(save, SaveId::Instr(2));
    assert_eq!(key, 9);
    assert_eq!(save.add_key(key), id);
    assert_eq!(OldId::Unbound.decompose(), Err(Error::Unbound));
    assert_eq!(OldId::Global(1).decompose(), Ok((SaveId::Global, 1)));
    assert_eq!(SaveId::Unbound.add_key(3), OldId::Unbound);
    assert_eq!(SaveId::default(), SaveId::Unbound);
    assert_eq!(OldId::default(), OldId::Unbound);
}

#[test]
fn stores_list_their_keys_in_order() {
    let mut m: GeneratorManager<Gen> = GeneratorManager::new();
    m.new_track(5, gen(0), gen(0), gen(0)).unwrap();
    m.new_track(2, gen(0), gen(0), gen(0)).unwrap();
    assert_eq!(m.track_ids(), vec![2, 5]);
    m.get_mut_or_new(GenId::Global(9), gen(1)).unwrap();
    m.get_mut_or_new(GenId::Global(3), gen(1)).unwrap();
    assert_eq!(m.global_save().keys(), vec![3, 9]);
    assert_eq!(m.global_save().store(), None);
    m.get_mut_or_new(GenId::Track { track_id: 5, key: 4 }, gen(7)).unwrap();
    let save = m.get_track_save(5).unwrap();
    assert_eq!(save.keys(), vec![4]);
    assert_eq!(save.store(), Some((5, TI::Track)));
    assert_eq!(m.get_track_save(6).err(), Some(Error::Existence));
}

#[test]
fn track_generators_go_where_a_read_track_needs_them() {
    let mut m: GeneratorManager<Gen> = GeneratorManager::new();
    let channels = vec![(7, gen(70)), (1, gen(10))];
    let res = song::gens::add_track_generators(&mut m, 3, channels, None, gen(5), gen(1), gen(2), gen(3));
    assert_eq!(res, Ok(()));
    let modw = GenId::Specific { track_id: 3, kind: Specific::ModW };
    let pitch = GenId::Specific { track_id: 3, kind: Specific::Pitch };
    let vel = GenId::Specific { track_id: 3, kind: Specific::Vel };
    assert_eq!(m.get(modw), Ok(&Gen { id: modw, value: 10 }));
    assert_eq!(m.get(pitch), Ok(&Gen { id: pitch, value: 1 }));
    assert_eq!(m.get(vel), Ok(&Gen { id: vel, value: 5 }));
    let seven = GenId::Track { track_id: 3, key: 7 };
    assert_eq!(m.get(seven), Ok(&Gen { id: seven, value: 70 }));
    assert_eq!(m.get(GenId::Track { track_id: 3, key: 1 }), Err(Error::Existence));
    assert_eq!(m.get(GenId::Instr { track_id: 3, key: 0 }), Err(Error::Existence));
}

#[test]
fn track_generators_keep_a_given_bend_and_the_default_mod_wheel() {
    let mut m: GeneratorManager<Gen> = GeneratorManager::new();
    let res = song::gens::add_track_generators(&mut m, 0, vec![], Some(gen(9)), gen(5), gen(1), gen(2), gen(3));
    assert_eq!(res, Ok(()));
    let modw = GenId::Specific { track_id: 0, kind: Specific::ModW };
    let pitch = GenId::Specific { track_id: 0, kind: Specific::Pitch };
    assert_eq!(m.get(modw), Ok(&gen(3)));
    assert_eq!(m.get(pitch), Ok(&Gen { id: pitch, value: 9 }));
    assert_eq!(m.track_ids(), vec![0]);
}
