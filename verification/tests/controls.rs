use song::control::{check_id, ControlError, ErrorKind, Piece};
use song::ctrl_f::phantom::PhantomF;
use song::instr::empty::EmptyInstrument;
use song::midi::{Pitch, Velocity};
use song::resources::{ResourceManager, SampleId};
use song::Error;

fn render(pieces: &[Piece]) -> String {
    let mut out = String::new();
    for p in pieces {
        match p {
            Piece::Text(t) => out.push_str(t),
            Piece::Float(b) => out.push_str(&f64::from_bits(*b).to_string()),
            Piece::Id(i) => out.push_str(&i.to_string()),
        }
    }
    out
}

#[test]
fn check_id_refuses_a_circle() {
    assert!(check_id(&[1, 2, 3], 4).is_ok());
    let e = check_id(&[1, 2, 3], 2).unwrap_err();
    assert_eq!(e.kind(), &ErrorKind::CircRef { id: 2 });
    assert!(e.path().is_empty());
    assert!(check_id(&[], 0).is_ok());
}

#[test]
fn errors_collect_where_they_arose() {
    let e = ControlError::new_func_not_found(7)
        .push_location("Source::Product")
        .push_location("Lfo")
        .set_origin("synth", "freq");
    assert_eq!(e.path(), &vec!["Source::Product".to_string(), "Lfo".to_string()]);
    assert_eq!(e.origin(), "synth");
    assert_eq!(e.control(), "freq");
    assert_eq!(
        render(&e.get_string()),
        "The source for freq in synth could not find the function with id: 7!\n    full path to control: Source::Product/Lfo/synth/freq"
    );
}

#[test]
fn messages_of_each_kind() {
    let r = ControlError::new_range_err(2.5f64.to_bits(), (0.0f64.to_bits(), 1.0f64.to_bits()))
        .set_origin("o", "c");
    assert_eq!(
        render(&r.get_string()),
        "The value of c in o was set to 2.5, which is not in range from 0 to 1!\n    full path to value: /o/c/2.5"
    );
    let m = ControlError::new_range_mismatch_err((0.0f64.to_bits(), 1.0f64.to_bits()), (0.0f64.to_bits(), 2.0f64.to_bits()));
    assert_eq!(
        render(&m.get_string()),
        "You tried to set  in  which has a range of (0, 1) to a control with a range of (0, 2)!\n    full path to control: //"
    );
    let c = ControlError::new_circ_ref_err(3).push_location("a");
    assert_eq!(
        render(&c.get_string()),
        "You tried to set  in  to 3 this leeds to a circular Reference between CtrlFunctions, which is not allowed!\n    full path to control: a//"
    );
    let d = ControlError::new_double_id_err(4);
    assert_eq!(render(&d.get_string()), "The id : 4, was encountered twice while creating IdMap");
    let p = ControlError::new_phantom_f_err().set_origin("x", "y");
    assert_eq!(
        render(&p.get_string()),
        "The source for y in x has no assigned CtrlFunction!\n    full path to control: /x/y"
    );
}

#[test]
fn phantom_function_fails_its_test() {
    let mut p = PhantomF();
    assert!(p.heal_sources(&()).is_ok());
    let e = p.test_sources().unwrap_err();
    assert_eq!(e.kind(), &ErrorKind::PhantomF);
}

#[test]
fn midi_data_bytes() {
    assert_eq!(Velocity::new(127).map(|v| v.get()), Some(127));
    assert!(Velocity::new(128).is_none());
    assert_eq!(Velocity::new_unchecked(200).get(), 200);
    assert_eq!(Pitch::new(0).map(|p| p.get()), Some(0));
    assert!(Pitch::new(0x80).is_none());
    assert_eq!(Pitch::new_unchecked(0x90).get(), 0x90);
    assert_eq!(song::tracks::midi::Pitch::new(69).map(|p| p.get()), Some(69));
    assert!(song::tracks::midi::Pitch::new(255).is_none());
    assert_eq!(song::tracks::midi::Pitch::new_unchecked(255).get(), 255);
}

#[test]
fn samples_get_smallest_free_index() {
    let mut r = ResourceManager::new();
    let a = r.add_sample_path("kick.wav".to_string()).unwrap();
    let b = r.add_sample_path("snare.wav".to_string()).unwrap();
    assert_eq!(a.index(), 0);
    assert_eq!(b.index(), 1);
    assert_eq!(r.len(), 2);
    assert_eq!(r.get_path(b), Ok("snare.wav".to_string()));
    assert_eq!(r.get_path(SampleId::new(5)), Err(Error::Existence));
    let copy = r.extract();
    assert_eq!(copy.get_path(a), Ok("kick.wav".to_string()));
    assert_eq!(ResourceManager::default().len(), 0);
}

#[test]
fn empty_instrument() {
    let mut e = EmptyInstrument::new();
    assert_eq!(e.name(), "empty");
    assert_eq!(e.put_in_song(3), Ok(()));
    let _ = EmptyInstrument::default();
}
