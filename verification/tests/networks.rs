use song::gens::{GenId, Specific};
use song::network::Network;

fn w(x: f32) -> u32 {
    x.to_bits()
}

fn leaf(id: GenId) -> Network {
    Network::Leaf(id)
}

fn leaf_ids(n: &Network) -> Vec<GenId> {
    match n {
        Network::Leaf(id) => vec![*id],
        Network::WeightedAverage(v) | Network::WeightedProduct(v) => {
            v.iter().flat_map(|(_, n)| leaf_ids(n)).collect()
        }
        Network::Inverted(n) => leaf_ids(n),
    }
}

#[test]
fn extract_keeps_instrument_generators() {
    let net = Network::WeightedAverage(vec![
        (w(0.5), leaf(GenId::Instr { track_id: 2, key: 1 })),
        (w(1.0), leaf(GenId::Global(3))),
        (w(2.0), leaf(GenId::Specific { track_id: 2, kind: Specific::Vel })),
    ]);
    let out = net.extract().unwrap();
    match &out {
        Network::WeightedAverage(v) => {
            assert_eq!(v.len(), 2);
            assert_eq!(v[0].0, w(0.5));
            assert_eq!(v[1].0, w(2.0));
        }
        _ => panic!("expected an average"),
    }
    assert_eq!(
        leaf_ids(&out),
        vec![GenId::InstrExtracted { key: 1 }, GenId::SpecificExtracted { kind: Specific::Vel }]
    );
}

#[test]
fn extract_drops_what_cannot_be_extracted() {
    assert!(leaf(GenId::Global(1)).extract().is_none());
    assert!(leaf(GenId::Unbound).extract().is_none());
    let all_global = Network::WeightedProduct(vec![(w(1.0), leaf(GenId::Global(1)))]);
    assert!(all_global.extract().is_none());
}

#[test]
fn extract_of_inverted_gives_the_inner_network() {
    let inv = Network::Inverted(Box::new(leaf(GenId::Instr { track_id: 1, key: 0 })));
    match inv.extract().unwrap() {
        Network::Leaf(id) => assert_eq!(id, GenId::InstrExtracted { key: 0 }),
        _ => panic!("expected a leaf"),
    }
}

#[test]
fn set_id_binds_every_generator() {
    let mut net = Network::WeightedProduct(vec![
        (w(1.0), leaf(GenId::InstrExtracted { key: 4 })),
        (w(1.0), Network::Inverted(Box::new(leaf(GenId::SpecificExtracted { kind: Specific::ModW })))),
        (w(3.0), leaf(GenId::Global(2))),
    ]);
    net.set_id(7);
    assert_eq!(
        leaf_ids(&net),
        vec![
            GenId::Instr { track_id: 7, key: 4 },
            GenId::Specific { track_id: 7, kind: Specific::ModW },
            GenId::Global(2)
        ]
    );
    assert!(matches!(net, Network::WeightedProduct(ref v) if v[2].0 == w(3.0)));
}

#[test]
fn extract_after_binding_ignores_the_track() {
    let make = || Network::WeightedAverage(vec![
        (w(1.0), leaf(GenId::Instr { track_id: 1, key: 2 })),
        (w(1.0), leaf(GenId::Track { track_id: 1, key: 0 })),
    ]);
    let mut bound = make();
    bound.set_id(9);
    assert_eq!(leaf_ids(&bound.extract().unwrap()), leaf_ids(&make().extract().unwrap()));
}

#[derive(Debug, Clone)]
struct Reads(Vec<GenId>);

impl song::network::SubIds for Reads {
    fn get_sub_ids(&self) -> Vec<GenId> {
        self.0.clone()
    }
}

#[test]
fn get_ids_lists_generators_and_what_they_read() {
    let mut m: song::gens::GeneratorManager<Reads> = song::gens::GeneratorManager::new();
    m.new_track(1, Reads(vec![]), Reads(vec![GenId::Global(9)]), Reads(vec![])).unwrap();
    m.get_mut_or_new(GenId::Global(2), Reads(vec![GenId::Global(7)])).unwrap();
    let net = Network::WeightedAverage(vec![
        (w(1.0), leaf(GenId::Global(2))),
        (w(1.0), Network::Inverted(Box::new(leaf(GenId::Specific { track_id: 1, kind: Specific::Vel })))),
    ]);
    assert_eq!(
        net.get_ids(&m).unwrap(),
        vec![
            GenId::Global(7),
            GenId::Global(2),
            GenId::Global(9),
            GenId::Specific { track_id: 1, kind: Specific::Vel }
        ]
    );
}

#[test]
fn get_ids_reports_the_first_missing_generator() {
    let m: song::gens::GeneratorManager<Reads> = song::gens::GeneratorManager::new();
    let net = Network::WeightedProduct(vec![
        (w(1.0), leaf(GenId::Unbound)),
        (w(1.0), leaf(GenId::Global(0))),
    ]);
    assert_eq!(net.get_ids(&m), Err(song::Error::Unbound));
    let other = Network::WeightedProduct(vec![
        (w(1.0), leaf(GenId::Global(0))),
        (w(1.0), leaf(GenId::Unbound)),
    ]);
    assert_eq!(other.get_ids(&m), Err(song::Error::Existence));
}

#[test]
fn binding_twice_is_binding_to_the_second_track() {
    let make = || Network::WeightedAverage(vec![
        (w(1.0), leaf(GenId::Instr { track_id: 1, key: 2 })),
        (w(1.0), Network::Inverted(Box::new(leaf(GenId::SpecificExtracted { kind: Specific::Pitch })))),
    ]);
    let mut twice = make();
    twice.set_id(3);
    twice.set_id(8);
    let mut once = make();
    once.set_id(8);
    assert_eq!(leaf_ids(&twice), leaf_ids(&once));
}

#[test]
fn extracting_twice_changes_nothing_more() {
    let net = Network::WeightedProduct(vec![
        (w(2.0), leaf(GenId::Instr { track_id: 1, key: 2 })),
        (w(1.0), leaf(GenId::Global(0))),
    ]);
    let once = net.extract().unwrap();
    let twice = once.extract().unwrap();
    assert_eq!(leaf_ids(&once), leaf_ids(&twice));
    assert_eq!(leaf_ids(&twice), vec![GenId::InstrExtracted { key: 2 }]);
}

#[test]
fn a_network_that_reads_its_parent_makes_a_loop() {
    let mut m: song::gens::GeneratorManager<Reads> = song::gens::GeneratorManager::new();
    m.get_mut_or_new(GenId::Global(2), Reads(vec![GenId::Global(7)])).unwrap();
    m.get_mut_or_new(GenId::Global(3), Reads(vec![])).unwrap();
    let net = Network::WeightedAverage(vec![(w(1.0), leaf(GenId::Global(2))), (w(1.0), leaf(GenId::Global(3)))]);
    assert_eq!(net.check_parent(GenId::Global(3), &m), Err(song::Error::Loop));
    assert_eq!(net.check_parent(GenId::Global(7), &m), Err(song::Error::Loop));
    assert_eq!(net.check_parent(GenId::Global(5), &m), Ok(()));
    assert_eq!(leaf(GenId::Global(4)).check_parent(GenId::Global(5), &m), Err(song::Error::Existence));
}
