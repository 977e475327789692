use song::io::wav::{check_wav_format, split_channels, wav_format_unwritten, SampleKind};
use song::io::{
    decode_meta_msg, decode_track, parse_midi_track, track_decode_panics, AlmostTrack,
    MetaMessage, MidiMessage, NoteOff, NoteOn, TimeDecoder, Timing, TrackEvent, TrackEventKind, TrackStop,
};
use song::io::smf::{decode_smf, parse_midi_bytes, MidiFile, MidiFileStop, SmfData};
use song::time::ClockTick;
use song::Error;

fn midi(delta: u32, message: MidiMessage) -> TrackEvent {
    TrackEvent { delta, kind: TrackEventKind::Midi { channel: 0, message } }
}

fn meta(delta: u32, msg: MetaMessage) -> TrackEvent {
    TrackEvent { delta, kind: TrackEventKind::Meta(msg) }
}

#[test]
fn decoder_records_tempos_and_signatures() {
    let mut d = TimeDecoder::new(Timing::Metrical(96));
    assert_eq!(d.mus_per_beat(0, 500_000), Ok(()));
    assert_eq!(d.mus_per_beat(480, 400_000), Ok(()));
    assert_eq!(d.mus_per_beat(480, 300_000), Err(Error::Parse));
    let (ticks, tempos) = d.mus_per_beat.slices();
    assert_eq!(ticks, &[0, 480]);
    assert_eq!(tempos, &[500_000, 400_000]);
    assert_eq!(d.push_signature(0, 3, 2, 8), Ok(()));
    assert_eq!(d.push_signature(0, 4, 2, 8), Err(Error::Parse));
    let sig = d.time_signatures.slices().1[0];
    assert_eq!(sig.beats_per_bar(), 3);
    assert_eq!(sig.beat_value(), 4);
    assert_eq!(sig.n32_p_beat(), 8);
    assert_eq!(d.midi_timeing, Timing::Metrical(96));
}

#[test]
fn signature_denominator_is_a_power_of_two() {
    let mut d = TimeDecoder::new(Timing::Timecode(25, 40));
    d.push_signature(0, 6, 3, 8).unwrap();
    d.push_signature(10, 2, 0, 8).unwrap();
    d.push_signature(20, 2, 7, 8).unwrap();
    let sigs = d.time_signatures.slices().1;
    assert_eq!(sigs[0].beat_value(), 8);
    assert_eq!(sigs[1].beat_value(), 1);
    assert_eq!(sigs[2].beat_value(), 128);
}

#[test]
fn track_pushes_keep_order() {
    let mut t = AlmostTrack::new(4);
    t.change_name("lead");
    t.change_inst_name("saw");
    t.change_number(9);
    t.push_note_on(0, 60, 100);
    t.push_note_off(10, 60);
    t.push_cc(5, 1, 64);
    t.push_pitch_bend(6, 8192);
    t.push_after_touch(7, 60, 3);
    t.push_ch_after_touch(8, 4);
    assert_eq!(t.name, "lead");
    assert_eq!(t.inst_name, "saw");
    assert_eq!(t.number, 9);
    assert_eq!(t.note_on.len(), 1);
    assert_eq!(t.note_on[0].key, 60);
    assert_eq!(t.note_off[0].tick, 10);
    assert_eq!(t.cc[0].val, 64);
    assert_eq!(t.pitch_bend[0].val, 8192);
    assert_eq!(t.after_touch[0].vel, 3);
    assert_eq!(t.ch_after_touch[0].vel, 4);
}

#[test]
fn into_track_pairs_each_press_with_first_release() {
    let mut t = AlmostTrack::new(2);
    t.push_note_on(0, 60, 100);
    t.push_note_on(5, 60, 90);
    t.push_note_on(6, 64, 80);
    t.push_note_off(10, 64);
    t.push_note_off(20, 60);
    t.push_note_off(30, 60);
    assert!(t.notes_pair());
    let b = t.into_track().unwrap();
    assert_eq!(b.track_nr, 2);
    assert_eq!(b.notes.len(), 3);
    assert_eq!(b.notes[0].pitch.get(), 60);
    assert_eq!(b.notes[0].on, ClockTick::new(0));
    assert_eq!(b.notes[0].off, ClockTick::new(20));
    assert_eq!(b.notes[0].vel, 100);
    assert_eq!(b.notes[1].off, ClockTick::new(30));
    assert_eq!(b.notes[2].pitch.get(), 64);
    assert_eq!(b.notes[2].off, ClockTick::new(10));
}

#[test]
fn notes_pair_detects_missing_release() {
    let mut t = AlmostTrack::new(0);
    t.push_note_on(0, 60, 100);
    t.push_note_off(1, 61);
    assert!(!t.notes_pair());
    let mut u = AlmostTrack::new(0);
    u.push_note_on(0, 60, 100);
    assert!(!u.notes_pair());
    let mut v = AlmostTrack::new(0);
    v.push_note_on(0, 200, 100);
    v.push_note_off(1, 200);
    assert!(!v.notes_pair());
}

#[test]
fn into_track_builds_series() {
    let mut t = AlmostTrack::new(300);
    t.change_name("bass");
    t.push_cc(10, 1, 5);
    t.push_cc(0, 1, 7);
    t.push_cc(3, 7, 100);
    t.push_pitch_bend(4, 100);
    t.push_pitch_bend(2, 200);
    t.push_ch_after_touch(1, 9);
    let b = t.into_track().unwrap();
    assert_eq!(b.name, "bass");
    assert_eq!(b.track_nr, 44);
    let modw = b.gen_data.get(&1).unwrap();
    assert_eq!(modw.slices().0, &[ClockTick::new(0), ClockTick::new(10)]);
    assert_eq!(modw.slices().1, &[7, 5]);
    assert_eq!(b.gen_data.get(&7).unwrap().slices().1, &[100]);
    assert_eq!(b.gen_data.len(), 2);
    assert_eq!(b.pitch_bend.slices().0, &[ClockTick::new(2), ClockTick::new(4)]);
    assert_eq!(b.pitch_bend.slices().1, &[200, 100]);
    assert_eq!(b.ch_after_touch.slices().1, &[9]);
    assert!(b.notes.is_empty());
}

#[test]
fn into_track_refuses_clashing_ticks() {
    let mut t = AlmostTrack::new(0);
    t.push_pitch_bend(4, 1);
    t.push_pitch_bend(4, 2);
    assert_eq!(t.into_track().err(), Some(Error::Overwrite));
    let mut u = AlmostTrack::new(0);
    u.push_cc(4, 1, 1);
    u.push_cc(4, 1, 2);
    assert_eq!(u.into_track().err(), Some(Error::Parse));
    let mut v = AlmostTrack::new(0);
    v.push_cc(4, 1, 1);
    v.push_cc(4, 2, 2);
    v.push_ch_after_touch(3, 1);
    v.push_ch_after_touch(3, 1);
    assert_eq!(v.into_track().err(), Some(Error::Overwrite));
}

#[test]
fn meta_messages_set_track_and_decoder() {
    let mut t = AlmostTrack::new(1);
    let mut d = TimeDecoder::new(Timing::Metrical(480));
    assert_eq!(decode_meta_msg(&MetaMessage::TrackNumber(Some(5)), &mut t, &mut d, 0), Ok(()));
    assert_eq!(t.number, 5);
    assert_eq!(decode_meta_msg(&MetaMessage::TrackNumber(None), &mut t, &mut d, 0), Ok(()));
    assert_eq!(t.number, 5);
    decode_meta_msg(&MetaMessage::TrackName("drums".to_string()), &mut t, &mut d, 0).unwrap();
    decode_meta_msg(&MetaMessage::InstrumentName("kit".to_string()), &mut t, &mut d, 0).unwrap();
    assert_eq!(t.name, "drums");
    assert_eq!(t.inst_name, "kit");
    decode_meta_msg(&MetaMessage::Tempo(600_000), &mut t, &mut d, 12).unwrap();
    assert_eq!(d.mus_per_beat.slices().0, &[12]);
    decode_meta_msg(&MetaMessage::TimeSignature(4, 2, 24, 8), &mut t, &mut d, 12).unwrap();
    assert_eq!(
        decode_meta_msg(&MetaMessage::TimeSignature(3, 2, 24, 8), &mut t, &mut d, 12),
        Err(Error::Parse)
    );
    assert_eq!(decode_meta_msg(&MetaMessage::Ignored, &mut t, &mut d, 99), Ok(()));
}

fn sample_track() -> Vec<TrackEvent> {
    vec![
        meta(0, MetaMessage::TrackName("piano".to_string())),
        meta(0, MetaMessage::Tempo(500_000)),
        midi(0, MidiMessage::NoteOn { key: 60, vel: 100 }),
        midi(10, MidiMessage::Controller { controller: 1, value: 3 }),
        midi(5, MidiMessage::NoteOff { key: 60, vel: 0 }),
        midi(1, MidiMessage::ProgramChange { program: 2 }),
        midi(1, MidiMessage::PitchBend { bend: 8000 }),
        midi(1, MidiMessage::Aftertouch { key: 60, vel: 1 }),
        midi(1, MidiMessage::ChannelAftertouch { vel: 2 }),
        TrackEvent { delta: 2, kind: TrackEventKind::SysEx },
        TrackEvent { delta: 0, kind: TrackEventKind::Escape },
        meta(4, MetaMessage::TimeSignature(4, 2, 24, 8)),
    ]
}

#[test]
fn track_events_decode_with_running_ticks() {
    let mut d = TimeDecoder::new(Timing::Metrical(96));
    let events = sample_track();
    assert!(!track_decode_panics(&events, &d, 3));
    let t = parse_midi_track(&events, &mut d, 3).unwrap();
    assert_eq!(t.name, "piano");
    assert_eq!(t.number, 3);
    assert_eq!(t.note_on[0].tick, 0);
    assert_eq!(t.cc[0].tick, 10);
    assert_eq!(t.note_off[0].tick, 15);
    assert_eq!(t.pitch_bend[0].tick, 17);
    assert_eq!(t.pitch_bend[0].val, 8000);
    assert_eq!(t.after_touch[0].tick, 18);
    assert_eq!(t.ch_after_touch[0].tick, 19);
    assert_eq!(d.mus_per_beat.slices().0, &[0]);
    assert_eq!(d.time_signatures.slices().0, &[25]);
}

#[test]
fn refused_signature_stops_decoding() {
    let mut d = TimeDecoder::new(Timing::Metrical(96));
    d.push_signature(7, 4, 2, 8).unwrap();
    let events = vec![
        meta(0, MetaMessage::Tempo(1)),
        meta(7, MetaMessage::TimeSignature(3, 2, 24, 8)),
        meta(1, MetaMessage::Tempo(2)),
    ];
    assert!(!track_decode_panics(&events, &d, 0));
    assert!(matches!(parse_midi_track(&events, &mut d, 0), Err(Error::Parse)));
    assert_eq!(d.mus_per_beat.slices().0, &[0]);
}

#[test]
fn panicking_events_are_found_before_decoding() {
    let d = TimeDecoder::new(Timing::Metrical(96));
    let tempo_twice = vec![meta(0, MetaMessage::Tempo(1)), meta(0, MetaMessage::Tempo(2))];
    assert!(track_decode_panics(&tempo_twice, &d, 0));
    let big_denominator = vec![meta(0, MetaMessage::TimeSignature(4, 8, 24, 8))];
    assert!(track_decode_panics(&big_denominator, &d, 0));
    let too_late = vec![midi(u32::MAX, MidiMessage::NoteOn { key: 1, vel: 1 }), midi(1, MidiMessage::NoteOff { key: 1, vel: 1 })];
    assert!(track_decode_panics(&too_late, &d, 0));
    let mut e = TimeDecoder::new(Timing::Metrical(96));
    assert!(matches!(decode_track(&tempo_twice, &mut e, 0), Err(TrackStop::Panics)));
    // the check leaves the decoder as it was
    assert!(d.mus_per_beat.is_empty());
}

#[test]
fn wav_formats() {
    assert_eq!(check_wav_format(2, 44100, 16, SampleKind::Int), Ok(()));
    assert_eq!(check_wav_format(2, 44100, 9, SampleKind::Int), Ok(()));
    assert_eq!(check_wav_format(1, 44100, 16, SampleKind::Int), Err(Error::WavRead));
    assert_eq!(check_wav_format(2, 48000, 16, SampleKind::Int), Err(Error::WavRead));
    assert_eq!(check_wav_format(2, 44100, 65, SampleKind::Int), Err(Error::WavRead));
    assert_eq!(check_wav_format(2, 44100, 65, SampleKind::Float), Err(Error::WavRead));
    assert!(wav_format_unwritten(2, 44100, 32, SampleKind::Float));
    assert!(wav_format_unwritten(2, 44100, 8, SampleKind::Int));
    assert!(wav_format_unwritten(2, 44100, 24, SampleKind::Int));
    assert!(!wav_format_unwritten(2, 44100, 16, SampleKind::Int));
    assert!(!wav_format_unwritten(1, 44100, 24, SampleKind::Int));
}

#[test]
fn split_channels_takes_turns() {
    let (left, right) = split_channels(&[1, -1, 2, -2, 3, -3]);
    assert_eq!(left, vec![1, 2, 3]);
    assert_eq!(right, vec![-1, -2, -3]);
    let (l, r) = split_channels(&[]);
    assert!(l.is_empty() && r.is_empty());
}

#[test]
fn decoded_changes_keep_their_order_in_series() {
    let mut d = TimeDecoder::new(Timing::Metrical(96));
    let events = vec![
        midi(3, MidiMessage::PitchBend { bend: 100 }),
        midi(2, MidiMessage::PitchBend { bend: 200 }),
        midi(0, MidiMessage::ChannelAftertouch { vel: 1 }),
        midi(4, MidiMessage::PitchBend { bend: 300 }),
        midi(1, MidiMessage::ChannelAftertouch { vel: 2 }),
    ];
    let t = parse_midi_track(&events, &mut d, 0).unwrap();
    let ticks: Vec<u32> = t.pitch_bend.iter().map(|p| p.tick).collect();
    assert_eq!(ticks, vec![3, 5, 9]);
    let b = t.into_track().unwrap();
    assert_eq!(b.pitch_bend.slices().0, &[ClockTick::new(3), ClockTick::new(5), ClockTick::new(9)]);
    assert_eq!(b.pitch_bend.slices().1, &[100, 200, 300]);
    assert_eq!(b.ch_after_touch.slices().0, &[ClockTick::new(5), ClockTick::new(10)]);
}

#[test]
fn decoded_changes_at_one_tick_are_refused() {
    let mut d = TimeDecoder::new(Timing::Metrical(96));
    let events = vec![
        midi(3, MidiMessage::PitchBend { bend: 100 }),
        midi(0, MidiMessage::PitchBend { bend: 200 }),
    ];
    let t = parse_midi_track(&events, &mut d, 0).unwrap();
    assert_eq!(t.into_track().err(), Some(Error::Overwrite));
}

#[test]
fn decoded_controller_changes_give_increasing_series() {
    let mut d = TimeDecoder::new(Timing::Metrical(96));
    let events = vec![
        midi(1, MidiMessage::Controller { controller: 7, value: 10 }),
        midi(1, MidiMessage::Controller { controller: 1, value: 20 }),
        midi(1, MidiMessage::Controller { controller: 7, value: 30 }),
        midi(0, MidiMessage::Controller { controller: 1, value: 40 }),
    ];
    let t = parse_midi_track(&events, &mut d, 0).unwrap();
    let b = t.into_track().unwrap();
    assert_eq!(b.gen_data.get(&7).unwrap().slices().0, &[ClockTick::new(1), ClockTick::new(3)]);
    assert_eq!(b.gen_data.get(&7).unwrap().slices().1, &[10, 30]);
    assert_eq!(b.gen_data.get(&1).unwrap().slices().0, &[ClockTick::new(2), ClockTick::new(3)]);
    assert_eq!(b.gen_data.get(&1).unwrap().slices().1, &[20, 40]);
}

fn smf_bytes(format: u8, track: &[u8]) -> Vec<u8> {
    let mut out = b"MThd".to_vec();
    out.extend_from_slice(&[0, 0, 0, 6, 0, format, 0, 1, 0, 96]);
    out.extend_from_slice(b"MTrk");
    out.extend_from_slice(&(track.len() as u32).to_be_bytes());
    out.extend_from_slice(track);
    out
}

const PIANO_TRACK: [u8; 28] = [
    0x00, 0xFF, 0x03, 0x05, b'p', b'i', b'a', b'n', b'o', // track name
    0x00, 0xFF, 0x51, 0x03, 0x07, 0xA1, 0x20, // tempo 500000
    0x00, 0x90, 0x3C, 0x64, // note on
    0x60, 0x80, 0x3C, 0x40, // note off 96 ticks later
    0x00, 0xFF, 0x2F, 0x00, // end of track
];

#[test]
fn midi_bytes_decode_to_tracks_and_time() {
    let file = match parse_midi_bytes(&smf_bytes(1, &PIANO_TRACK)) {
        Ok(file) => file,
        Err(e) => panic!("refused: {:?}", e),
    };
    let MidiFile { tracks, mut time } = file;
    assert_eq!(tracks.len(), 1);
    assert_eq!(tracks[0].name, "piano");
    assert_eq!(tracks[0].number, 0);
    assert_eq!(tracks[0].note_on, vec![NoteOn { tick: 0, key: 60, vel: 100 }]);
    assert_eq!(tracks[0].note_off, vec![NoteOff { tick: 96, key: 60 }]);
    assert_eq!(time.midi_timeing, Timing::Metrical(96));
    assert_eq!(time.mus_per_beat(0, 400_000), Err(Error::Parse));
}

#[test]
fn midi_bytes_that_midly_refuses_are_unreadable() {
    assert!(matches!(parse_midi_bytes(b"not a midi file"), Err(MidiFileStop::Unreadable(_))));
}

#[test]
fn sequential_midi_files_are_not_decoded() {
    assert!(matches!(parse_midi_bytes(&smf_bytes(2, &PIANO_TRACK)), Err(MidiFileStop::Sequential)));
}

#[test]
fn a_name_that_is_not_text_panics_in_decoding() {
    let track = [0x00, 0xFF, 0x03, 0x01, 0xFF, 0x00, 0xFF, 0x2F, 0x00];
    assert!(matches!(parse_midi_bytes(&smf_bytes(1, &track)), Err(MidiFileStop::Panics)));
}

#[test]
fn tracks_share_one_time_decoder() {
    let sig = || meta(0, MetaMessage::TimeSignature(4, 2, 24, 8));
    let data = SmfData { timing: Timing::Metrical(96), sequential: false, tracks: vec![vec![sig()], vec![sig()]] };
    assert!(matches!(decode_smf(&data), Err(MidiFileStop::Refused)));
    let data = SmfData {
        timing: Timing::Metrical(96),
        sequential: false,
        tracks: vec![vec![sig()], vec![midi(5, MidiMessage::NoteOn { key: 1, vel: 2 })]],
    };
    let file = decode_smf(&data).unwrap();
    assert_eq!(file.tracks.len(), 2);
    assert_eq!(file.tracks[1].number, 1);
    assert_eq!(file.tracks[1].note_on, vec![NoteOn { tick: 5, key: 1, vel: 2 }]);
}

#[test]
fn a_song_takes_in_tracks_with_notes_and_a_free_number() {
    let mut a = AlmostTrack::new(3);
    a.push_note_on(0, 60, 100);
    a.push_note_off(10, 60);
    let with_notes = a.into_track().unwrap();
    assert_eq!(with_notes.admission(&vec![1, 2]), Ok(true));
    assert_eq!(with_notes.admission(&vec![1, 3]), Err(Error::Overwrite));
    let empty = AlmostTrack::new(3).into_track().unwrap();
    assert_eq!(empty.admission(&vec![3]), Ok(false));
}
