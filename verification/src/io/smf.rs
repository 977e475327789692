use vstd::prelude::*;
use midly::{
    Error as MidlyError, MetaMessage as MidlyMeta, MidiMessage as MidlyMessage, TrackEvent as MidlyEvent,
};

use crate::io::{
    decode_events, decode_track, empty_track, AlmostTrack, DecoderModel, MetaMessage, MidiMessage, Progress,
    TimeDecoder, Timing, TrackEvent, TrackEventKind, TrackModel, TrackStop,
};

verus! {

#[verifier::external_type_specification]
#[verifier::external_body]
pub struct ExMidlyError(MidlyError);

#[verifier::external_type_specification]
#[verifier::external_body]
pub struct ExMidlyTrackEvent<'a>(MidlyEvent<'a>);

#[verifier::external_type_specification]
#[verifier::external_body]
pub struct ExMidlyMetaMessage<'a>(MidlyMeta<'a>);

#[verifier::external_type_specification]
#[verifier::external_body]
pub struct ExMidlyMidiMessage(MidlyMessage);

/// A standard MIDI file as plain values: how it counts time, whether its tracks
/// are played one after another, and the events of each track.
pub struct SmfData {
    pub timing: Timing,
    pub sequential: bool,
    pub tracks: Vec<Vec<TrackEvent>>,
}

/// What `midly` reads from the bytes of a standard MIDI file, in the library's
/// types; `None` where it refuses the bytes.
pub uninterp spec fn smf_of(bytes: Seq<u8>) -> Option<SmfData>;

/// A channel message of `midly` in the library's type, field by field.
#[verifier::external_body]
fn message_of(m: MidlyMessage) -> MidiMessage {
    match m {
        MidlyMessage::NoteOff { key, vel } => MidiMessage::NoteOff { key: key.as_int(), vel: vel.as_int() },
        MidlyMessage::NoteOn { key, vel } => MidiMessage::NoteOn { key: key.as_int(), vel: vel.as_int() },
        MidlyMessage::Aftertouch { key, vel } => MidiMessage::Aftertouch { key: key.as_int(), vel: vel.as_int() },
        MidlyMessage::Controller { controller, value } => MidiMessage::Controller { controller: controller.as_int(), value: value.as_int() },
        MidlyMessage::ProgramChange { program } => MidiMessage::ProgramChange { program: program.as_int() },
        MidlyMessage::ChannelAftertouch { vel } => MidiMessage::ChannelAftertouch { vel: vel.as_int() },
        MidlyMessage::PitchBend { bend } => MidiMessage::PitchBend { bend: bend.0.as_int() },
    }
}

/// A meta message of `midly` in the library's type; a name's bytes become
/// text where they are UTF-8, and the messages decoding skips become `Ignored`.
#[verifier::external_body]
fn meta_of(m: MidlyMeta) -> MetaMessage {
    match m {
        MidlyMeta::TrackNumber(n) => MetaMessage::TrackNumber(n),
        MidlyMeta::TrackName(b) => String::from_utf8(b.to_vec()).map_or(MetaMessage::UnreadableName, MetaMessage::TrackName),
        MidlyMeta::InstrumentName(b) => String::from_utf8(b.to_vec()).map_or(MetaMessage::UnreadableName, MetaMessage::InstrumentName),
        MidlyMeta::Tempo(t) => MetaMessage::Tempo(t.as_int()),
        MidlyMeta::TimeSignature(a, b, c, d) => MetaMessage::TimeSignature(a, b, c, d),
        _ => MetaMessage::Ignored,
    }
}

/// A track event of `midly` in the library's type.
#[verifier::external_body]
fn event_of(e: &MidlyEvent) -> TrackEvent {
    let kind = match e.kind {
        midly::TrackEventKind::Midi { channel, message } => TrackEventKind::Midi { channel: channel.as_int(), message: message_of(message) },
        midly::TrackEventKind::SysEx(_) => TrackEventKind::SysEx,
        midly::TrackEventKind::Escape(_) => TrackEventKind::Escape,
        midly::TrackEventKind::Meta(m) => TrackEventKind::Meta(meta_of(m)),
    };
    TrackEvent { delta: e.delta.as_int(), kind }
}

/// Reads a standard MIDI file with `midly::Smf::parse` and hands its timing, its
/// format and its events on in the library's types. Trusted: what it gives is a
/// function of the bytes alone, `smf_of`; `Ok` exactly where that is `Some`,
/// and midly's error as midly gives it otherwise.
#[verifier::external_body]
fn parse_smf(bytes: &[u8]) -> (r: Result<SmfData, MidlyError>)
    ensures
        r is Ok <==> smf_of(bytes@) is Some,
        r matches Ok(d) ==> smf_of(bytes@) == Some(d),
{
    let smf = midly::Smf::parse(bytes)?;
    let timing = match smf.header.timing {
        midly::Timing::Metrical(tpb) => Timing::Metrical(tpb.as_int()),
        midly::Timing::Timecode(fps, sub) => Timing::Timecode(fps.as_int(), sub),
    };
    let sequential = matches!(smf.header.format, midly::Format::Sequential);
    let tracks = smf.tracks.iter().map(|t| t.iter().map(event_of).collect()).collect();
    Ok(SmfData { timing, sequential, tracks })
}

/// A decoded MIDI file: its tracks, each numbered by its place in the file, and
/// its tempo changes and time signatures.
pub struct MidiFile {
    pub tracks: Vec<AlmostTrack>,
    pub time: TimeDecoder,
}

/// Why reading a MIDI file stopped.
#[derive(Debug)]
pub enum MidiFileStop {
    /// `midly` refused the bytes, with its error.
    Unreadable(MidlyError),
    /// The tracks are played one after another, which is not decoded yet.
    Sequential,
    /// A time signature came at a tick that already has one.
    Refused,
    /// An event that decoding panics on (see `TrackStop::Panics`), or a track
    /// whose place does not fit in a `u16`.
    Panics,
}

/// A time decoder with no tempo changes and no signatures yet.
pub open spec fn fresh_decoder() -> DecoderModel {
    DecoderModel {
        tempo_ticks: Seq::empty(),
        tempos: Seq::empty(),
        sig_ticks: Seq::empty(),
        sigs: Seq::empty(),
    }
}

/// Where decoding the tracks of a file stands.
pub enum FileProgress {
    Panicked,
    Refused,
    Going(Seq<TrackModel>, DecoderModel),
}

/// Decoding the first `n` tracks in turn from the decoder `d0`: the track at
/// place `i` is numbered `i` (a place past `u16::MAX` panics) and decoded as
/// `decode_events` says from the decoder the tracks before it left; decoding
/// stops at the first track that does not go on.
pub open spec fn decode_tracks(tracks: Seq<Vec<TrackEvent>>, n: nat, d0: DecoderModel) -> FileProgress
    decreases n,
{
    if n == 0 {
        FileProgress::Going(Seq::empty(), d0)
    } else {
        match decode_tracks(tracks, (n - 1) as nat, d0) {
            FileProgress::Going(ts, d) => if n - 1 > u16::MAX {
                FileProgress::Panicked
            } else {
                let evs = tracks[n - 1]@;
                match decode_events(evs, evs.len(), empty_track((n - 1) as u16), d) {
                    Progress::Going(_, t, d2) => FileProgress::Going(ts.push(t), d2),
                    Progress::Refused(_) => FileProgress::Refused,
                    Progress::Panicked => FileProgress::Panicked,
                }
            },
            other => other,
        }
    }
}

/// Once decoding the tracks stops, decoding more changes nothing.
proof fn lemma_tracks_stopped(tracks: Seq<Vec<TrackEvent>>, k: nat, n: nat, d0: DecoderModel)
    requires
        k <= n,
        !(decode_tracks(tracks, k, d0) is Going),
    ensures
        decode_tracks(tracks, n, d0) == decode_tracks(tracks, k, d0),
    decreases n - k,
{
    if k < n {
        lemma_tracks_stopped(tracks, k, (n - 1) as nat, d0);
    }
}

/// The models of decoded tracks.
pub open spec fn track_models(ts: Seq<AlmostTrack>) -> Seq<TrackModel> {
    ts.map_values(|a: AlmostTrack| a.model())
}

/// What decoding `data` answers: a sequential file stops with `Sequential`;
/// otherwise the tracks are decoded as `decode_tracks` says from a fresh decoder
/// with the file's timing, and the answer is the decoded tracks and decoder, or
/// the stop that ended it.
pub open spec fn decoded_as(data: SmfData, res: Result<MidiFile, MidiFileStop>) -> bool {
    if data.sequential {
        res matches Err(MidiFileStop::Sequential)
    } else {
        match decode_tracks(data.tracks@, data.tracks@.len(), fresh_decoder()) {
            FileProgress::Going(ts, d) => res matches Ok(f) && track_models(f.tracks@) == ts && f.time.model()
                == d && f.time.midi_timeing == data.timing && f.time.wf(),
            FileProgress::Refused => res matches Err(MidiFileStop::Refused),
            FileProgress::Panicked => res matches Err(MidiFileStop::Panics),
        }
    }
}

/// Decodes the tracks of a standard MIDI file in turn with one time decoder, as
/// `decoded_as` says.
pub fn decode_smf(data: &SmfData) -> (res: Result<MidiFile, MidiFileStop>)
    ensures
        decoded_as(*data, res),
{
    let mut time = TimeDecoder::new(data.timing);
    if data.sequential {
        return Err(MidiFileStop::Sequential);
    }
    let ghost d0 = time.model();
    let mut tracks: Vec<AlmostTrack> = Vec::new();
    let mut i: usize = 0;
    proof {
        assert(d0 == fresh_decoder());
        assert(track_models(tracks@) =~= Seq::<TrackModel>::empty());
    }
    while i < data.tracks.len()
        invariant
            0 <= i <= data.tracks@.len(),
            !data.sequential,
            d0 == fresh_decoder(),
            time.wf(),
            time.midi_timeing == data.timing,
            decode_tracks(data.tracks@, i as nat, d0) == FileProgress::Going(track_models(tracks@), time.model()),
        decreases data.tracks@.len() - i,
    {
        let ghost before = track_models(tracks@);
        if i > 65535 {
            proof {
                lemma_tracks_stopped(data.tracks@, (i + 1) as nat, data.tracks@.len(), d0);
            }
            return Err(MidiFileStop::Panics);
        }
        let index: u16 = i as u16;
        let events = data.tracks[i].as_slice();
        match decode_track(events, &mut time, index) {
            Ok(t) => {
                tracks.push(t);
                proof {
                    assert(track_models(tracks@) =~= before.push(t.model()));
                }
            },
            Err(TrackStop::Refused) => {
                proof {
                    lemma_tracks_stopped(data.tracks@, (i + 1) as nat, data.tracks@.len(), d0);
                }
                return Err(MidiFileStop::Refused);
            },
            Err(TrackStop::Panics) => {
                proof {
                    lemma_tracks_stopped(data.tracks@, (i + 1) as nat, data.tracks@.len(), d0);
                }
                return Err(MidiFileStop::Panics);
            },
        }
        i = i + 1;
    }
    Ok(MidiFile { tracks, time })
}

/// Reads and decodes a standard MIDI file from its bytes: `Unreadable` with
/// midly's error where midly refuses them, else as `decode_smf` answers for
/// what midly read.
pub fn parse_midi_bytes(bytes: &[u8]) -> (res: Result<MidiFile, MidiFileStop>)
    ensures
        match smf_of(bytes@) {
            None => res matches Err(MidiFileStop::Unreadable(_)),
            Some(data) => decoded_as(data, res),
        },
{
    match parse_smf(bytes) {
        Ok(data) => decode_smf(&data),
        Err(e) => Err(MidiFileStop::Unreadable(e)),
    }
}

} // verus!
