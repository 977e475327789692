use vstd::prelude::*;
use vstd::string::StringExecFns;
use std::collections::HashMap;

use crate::time::ClockTick;
use crate::tracks::midi::Pitch;
use crate::utils::{
    keys_of, lemma_locate, lemma_position_from, locate, position_from, pushed, strictly_increasing, Key, MyRes, XYPairs,
};
use crate::Error;

pub mod smf;
pub mod wav;

verus! {

/// A time signature as a MIDI file gives it.
#[derive(Debug, Clone, Copy, PartialEq, Eq, Structural)]
pub struct MidiSig {
    beats_per_bar: u8,
    beat_value: u8,
    n32_p_beat: u8,
}

impl MidiSig {
    /// Beats per bar, the length of a beat as a fraction of a whole note (its
    /// denominator), and 32nd notes per beat.
    pub closed spec fn parts(&self) -> (u8, u8, u8) {
        (self.beats_per_bar, self.beat_value, self.n32_p_beat)
    }

    /// Beats per bar.
    pub fn beats_per_bar(&self) -> (res: u8)
        ensures
            res == self.parts().0,
    {
        self.beats_per_bar
    }

    /// The denominator of the signature.
    pub fn beat_value(&self) -> (res: u8)
        ensures
            res == self.parts().1,
    {
        self.beat_value
    }

    /// 32nd notes per beat.
    pub fn n32_p_beat(&self) -> (res: u8)
        ensures
            res == self.parts().2,
    {
        self.n32_p_beat
    }
}

/// How a MIDI file counts time: ticks per beat, or frames per second and ticks
/// per frame.
#[derive(Debug, Clone, Copy, PartialEq, Eq, Structural)]
pub enum Timing {
    Metrical(u16),
    Timecode(u8, u8),
}

/// Two to the power `n`.
pub open spec fn two_to(n: nat) -> nat
    decreases n,
{
    if n == 0 {
        1
    } else {
        2 * two_to((n - 1) as nat)
    }
}

/// What a MIDI file says of time: its timing, the microseconds per beat from each
/// tempo change on, and the time signatures, by tick.
pub struct TimeDecoder {
    pub midi_timeing: Timing,
    pub mus_per_beat: XYPairs<u32, u32>,
    pub time_signatures: XYPairs<u32, MidiSig>,
}

impl TimeDecoder {
    /// Both series hold as many keys as values.
    pub open spec fn wf(&self) -> bool {
        self.mus_per_beat.wf() && self.time_signatures.wf()
    }

    /// No tempo changes and no signatures yet.
    pub fn new(timing: Timing) -> (res: Self)
        ensures
            res.wf(),
            res.midi_timeing == timing,
            res.mus_per_beat.xs() == Seq::<u32>::empty(),
            res.mus_per_beat.ys() == Seq::<u32>::empty(),
            res.time_signatures.xs() == Seq::<u32>::empty(),
            res.time_signatures.ys() == Seq::<MidiSig>::empty(),
    {
        Self { midi_timeing: timing, mus_per_beat: XYPairs::new(), time_signatures: XYPairs::new() }
    }

    /// Records a tempo of `value` microseconds per beat from `tick` on; a second
    /// tempo at the same tick is refused with `Error::Parse`.
    pub fn mus_per_beat(&mut self, tick: u32, value: u32) -> (res: Result<(), Error>)
        requires
            old(self).wf(),
        ensures
            final(self).wf(),
            final(self).midi_timeing == old(self).midi_timeing,
            final(self).time_signatures == old(self).time_signatures,
            match pushed(old(self).mus_per_beat.xs(), old(self).mus_per_beat.ys(), tick, value) {
                Some((xs, ys)) => res is Ok && final(self).mus_per_beat.xs() == xs
                    && final(self).mus_per_beat.ys() == ys,
                None => res == Err::<(), Error>(Error::Parse) && final(self).mus_per_beat.xs() == old(self).mus_per_beat.xs() && final(self).mus_per_beat.ys() == old(self).mus_per_beat.ys(),
            },
    {
        match self.mus_per_beat.push(tick, value) {
            Ok(()) => Ok(()),
            Err(_) => Err(Error::Parse),
        }
    }

    /// Records a time signature from `tick` on: `numerator` beats per bar, a beat
    /// of a `2^lb_denominator`-th note, `n32_p_beat` 32nd notes per beat; a second
    /// signature at the same tick is refused with `Error::Parse`.
    pub fn push_signature(&mut self, tick: u32, numerator: u8, lb_denominator: u8, n32_p_beat: u8) -> (res: Result<(), Error>)
        requires
            old(self).wf(),
            lb_denominator < 8,
        ensures
            final(self).wf(),
            final(self).midi_timeing == old(self).midi_timeing,
            final(self).mus_per_beat == old(self).mus_per_beat,
            match pushed(
                old(self).time_signatures.xs(),
                old(self).time_signatures.ys(),
                tick,
                signature(numerator, lb_denominator, n32_p_beat),
            ) {
                Some((xs, ys)) => res is Ok && final(self).time_signatures.xs() == xs
                    && final(self).time_signatures.ys() == ys,
                None => res == Err::<(), Error>(Error::Parse) && final(self).time_signatures.xs()
                    == old(self).time_signatures.xs() && final(self).time_signatures.ys() == old(self).time_signatures.ys(),
            },
    {
        let mut beat_value: u8 = 1;
        let mut i: u8 = 0;
        while i < lb_denominator
            invariant
                0 <= i <= lb_denominator < 8,
                beat_value == two_to(i as nat),
                beat_value <= 128,
            decreases lb_denominator - i,
        {
            proof {
                if i < 7 {
                    assert(two_to(i as nat) <= 64) by {
                        reveal_with_fuel(two_to, 8);
                    }
                }
            }
            beat_value = beat_value * 2;
            i = i + 1;
        }
        let sig = MidiSig { beats_per_bar: numerator, beat_value, n32_p_beat };
        match self.time_signatures.push(tick, sig) {
            Ok(()) => Ok(()),
            Err(_) => Err(Error::Parse),
        }
    }
}

/// The signature of `numerator` beats of a `2^lb_denominator`-th note per bar.
pub closed spec fn signature(numerator: u8, lb_denominator: u8, n32_p_beat: u8) -> MidiSig {
    MidiSig { beats_per_bar: numerator, beat_value: two_to(lb_denominator as nat) as u8, n32_p_beat }
}

/// A key pressed at a tick, with its velocity.
#[derive(Debug, Clone, Copy, PartialEq, Eq, Structural)]
pub struct NoteOn {
    pub tick: u32,
    pub key: u8,
    pub vel: u8,
}

/// A key released at a tick.
#[derive(Debug, Clone, Copy, PartialEq, Eq, Structural)]
pub struct NoteOff {
    pub tick: u32,
    pub key: u8,
}

/// A controller set to a value at a tick.
#[derive(Debug, Clone, Copy, PartialEq, Eq, Structural)]
pub struct ControlChange {
    pub tick: u32,
    pub control: u8,
    pub val: u8,
}

/// The pitch wheel set at a tick, as its raw 14-bit value.
#[derive(Debug, Clone, Copy, PartialEq, Eq, Structural)]
pub struct PitchBend {
    pub tick: u32,
    pub val: u16,
}

/// The pressure on one key at a tick.
#[derive(Debug, Clone, Copy, PartialEq, Eq, Structural)]
pub struct AfterTouch {
    pub tick: u32,
    pub key: u8,
    pub vel: u8,
}

/// The pressure on the whole channel at a tick.
#[derive(Debug, Clone, Copy, PartialEq, Eq, Structural)]
pub struct ChAftertouch {
    pub tick: u32,
    pub vel: u8,
}

/// A note of a decoded track: its key, when it starts and ends, and its raw velocity.
#[derive(Debug, Clone, Copy, PartialEq, Eq, Structural)]
pub struct RawNote {
    pub pitch: Pitch,
    pub on: ClockTick,
    pub off: ClockTick,
    pub vel: u8,
}

/// The events of one MIDI track, sorted by kind, before notes are paired.
#[derive(Debug)]
pub struct AlmostTrack {
    pub name: String,
    pub inst_name: String,
    pub number: u16,
    pub note_on: Vec<NoteOn>,
    pub note_off: Vec<NoteOff>,
    pub after_touch: Vec<AfterTouch>,
    pub ch_after_touch: Vec<ChAftertouch>,
    pub cc: Vec<ControlChange>,
    pub pitch_bend: Vec<PitchBend>,
}

impl AlmostTrack {
    /// An empty track numbered `number`.
    pub fn new(number: u16) -> (res: Self)
        ensures
            res.name@ == Seq::<char>::empty(),
            res.inst_name@ == Seq::<char>::empty(),
            res.number == number,
            res.note_on@ == Seq::<NoteOn>::empty(),
            res.note_off@ == Seq::<NoteOff>::empty(),
            res.after_touch@ == Seq::<AfterTouch>::empty(),
            res.ch_after_touch@ == Seq::<ChAftertouch>::empty(),
            res.cc@ == Seq::<ControlChange>::empty(),
            res.pitch_bend@ == Seq::<PitchBend>::empty(),
    {
        Self {
            name: String::new(),
            inst_name: String::new(),
            number,
            ch_after_touch: Vec::new(),
            after_touch: Vec::new(),
            note_on: Vec::new(),
            note_off: Vec::new(),
            cc: Vec::new(),
            pitch_bend: Vec::new(),
        }
    }

    /// Sets the track's name.
    pub fn change_name(&mut self, name: &str)
        ensures
            final(self).name@ == name@,
            final(self).inst_name == old(self).inst_name,
            final(self).number == old(self).number,
            final(self).note_on == old(self).note_on,
            final(self).note_off == old(self).note_off,
            final(self).after_touch == old(self).after_touch,
            final(self).ch_after_touch == old(self).ch_after_touch,
            final(self).cc == old(self).cc,
            final(self).pitch_bend == old(self).pitch_bend,
    {
        self.name = String::from_str(name);
    }

    /// Sets the name of the track's instrument.
    pub fn change_inst_name(&mut self, name: &str)
        ensures
            final(self).inst_name@ == name@,
            final(self).name == old(self).name,
            final(self).number == old(self).number,
            final(self).note_on == old(self).note_on,
            final(self).note_off == old(self).note_off,
            final(self).after_touch == old(self).after_touch,
            final(self).ch_after_touch == old(self).ch_after_touch,
            final(self).cc == old(self).cc,
            final(self).pitch_bend == old(self).pitch_bend,
    {
        self.inst_name = String::from_str(name);
    }

    /// Sets the track's number.
    pub fn change_number(&mut self, number: u16)
        ensures
            final(self).number == number,
            final(self).name == old(self).name,
            final(self).inst_name == old(self).inst_name,
            final(self).note_on == old(self).note_on,
            final(self).note_off == old(self).note_off,
            final(self).after_touch == old(self).after_touch,
            final(self).ch_after_touch == old(self).ch_after_touch,
            final(self).cc == old(self).cc,
            final(self).pitch_bend == old(self).pitch_bend,
    {
        self.number = number;
    }

    /// Appends a key press.
    pub fn push_note_on(&mut self, tick: u32, key: u8, vel: u8)
        ensures
            final(self).note_on@ == old(self).note_on@.push(NoteOn { tick, key, vel }),
            final(self).name == old(self).name,
            final(self).inst_name == old(self).inst_name,
            final(self).number == old(self).number,
            final(self).note_off == old(self).note_off,
            final(self).after_touch == old(self).after_touch,
            final(self).ch_after_touch == old(self).ch_after_touch,
            final(self).cc == old(self).cc,
            final(self).pitch_bend == old(self).pitch_bend,
    {
        self.note_on.push(NoteOn { tick, key, vel });
    }

    /// Appends a key release.
    pub fn push_note_off(&mut self, tick: u32, key: u8)
        ensures
            final(self).note_off@ == old(self).note_off@.push(NoteOff { tick, key }),
            final(self).name == old(self).name,
            final(self).inst_name == old(self).inst_name,
            final(self).number == old(self).number,
            final(self).note_on == old(self).note_on,
            final(self).after_touch == old(self).after_touch,
            final(self).ch_after_touch == old(self).ch_after_touch,
            final(self).cc == old(self).cc,
            final(self).pitch_bend == old(self).pitch_bend,
    {
        self.note_off.push(NoteOff { tick, key });
    }

    /// Appends a controller change.
    pub fn push_cc(&mut self, tick: u32, control: u8, val: u8)
        ensures
            final(self).cc@ == old(self).cc@.push(ControlChange { tick, control, val }),
            final(self).name == old(self).name,
            final(self).inst_name == old(self).inst_name,
            final(self).number == old(self).number,
            final(self).note_on == old(self).note_on,
            final(self).note_off == old(self).note_off,
            final(self).after_touch == old(self).after_touch,
            final(self).ch_after_touch == old(self).ch_after_touch,
            final(self).pitch_bend == old(self).pitch_bend,
    {
        self.cc.push(ControlChange { tick, control, val });
    }

    /// Appends a pitch wheel change.
    pub fn push_pitch_bend(&mut self, tick: u32, val: u16)
        ensures
            final(self).pitch_bend@ == old(self).pitch_bend@.push(PitchBend { tick, val }),
            final(self).name == old(self).name,
            final(self).inst_name == old(self).inst_name,
            final(self).number == old(self).number,
            final(self).note_on == old(self).note_on,
            final(self).note_off == old(self).note_off,
            final(self).after_touch == old(self).after_touch,
            final(self).ch_after_touch == old(self).ch_after_touch,
            final(self).cc == old(self).cc,
    {
        self.pitch_bend.push(PitchBend { tick, val });
    }

    /// Appends a key pressure.
    pub fn push_after_touch(&mut self, tick: u32, key: u8, vel: u8)
        ensures
            final(self).after_touch@ == old(self).after_touch@.push(AfterTouch { tick, key, vel }),
            final(self).name == old(self).name,
            final(self).inst_name == old(self).inst_name,
            final(self).number == old(self).number,
            final(self).note_on == old(self).note_on,
            final(self).note_off == old(self).note_off,
            final(self).ch_after_touch == old(self).ch_after_touch,
            final(self).cc == old(self).cc,
            final(self).pitch_bend == old(self).pitch_bend,
    {
        self.after_touch.push(AfterTouch { tick, key, vel });
    }

    /// Appends a channel pressure.
    pub fn push_ch_after_touch(&mut self, tick: u32, vel: u8)
        ensures
            final(self).ch_after_touch@ == old(self).ch_after_touch@.push(ChAftertouch { tick, vel }),
            final(self).name == old(self).name,
            final(self).inst_name == old(self).inst_name,
            final(self).number == old(self).number,
            final(self).note_on == old(self).note_on,
            final(self).note_off == old(self).note_off,
            final(self).after_touch == old(self).after_touch,
            final(self).cc == old(self).cc,
            final(self).pitch_bend == old(self).pitch_bend,
    {
        self.ch_after_touch.push(ChAftertouch { tick, vel });
    }
}


/// The keys of the releases, as integers.
pub open spec fn off_keys(offs: Seq<NoteOff>) -> Seq<u64> {
    offs.map_values(|o: NoteOff| o.key as u64)
}

/// The index of the first release of `key` among `offs`, or `-1` when there is none.
pub open spec fn first_off(offs: Seq<NoteOff>, key: u8) -> int {
    position_from(off_keys(offs), key as u64, 0)
}

/// Pairs the first `k` presses with releases: each press, in order, takes the
/// first release of its key that no earlier press took. The pairs and the
/// releases left, or `None` when a press finds no release or its key is not a
/// MIDI data byte.
pub open spec fn pair_notes(ons: Seq<NoteOn>, offs: Seq<NoteOff>, k: nat) -> Option<(Seq<(NoteOn, NoteOff)>, Seq<NoteOff>)>
    decreases k,
{
    if k == 0 {
        Some((Seq::empty(), offs))
    } else {
        match pair_notes(ons, offs, (k - 1) as nat) {
            None => None,
            Some((pairs, rest)) => {
                let on = ons[k - 1];
                let i = first_off(rest, on.key);
                if i < 0 || on.key >= 128 {
                    None
                } else {
                    Some((pairs.push((on, rest[i])), rest.remove(i)))
                }
            },
        }
    }
}

/// Pairing keeps the presses in order, gives each a release of its own key, and
/// takes each release it gives from those left.
pub proof fn lemma_pair_notes(ons: Seq<NoteOn>, offs: Seq<NoteOff>, k: nat)
    requires
        k <= ons.len(),
        pair_notes(ons, offs, k) is Some,
    ensures
        pair_notes(ons, offs, k) matches Some((pairs, rest)) && {
            &&& pairs.len() == k
            &&& rest.len() + k == offs.len()
            &&& forall|i: int| 0 <= i < k ==> (#[trigger] pairs[i]).0 == ons[i] && pairs[i].1.key
                == ons[i].key && ons[i].key < 128
            &&& pairs.map_values(|p: (NoteOn, NoteOff)| p.1).to_multiset().add(rest.to_multiset())
                == offs.to_multiset()
        },
    decreases k,
{
    broadcast use vstd::seq_lib::group_to_multiset_ensures;
    if k > 0 {
        lemma_pair_notes(ons, offs, (k - 1) as nat);
        let (pairs, rest) = pair_notes(ons, offs, (k - 1) as nat).unwrap();
        let on = ons[k - 1];
        let i = first_off(rest, on.key);
        lemma_first_off(rest, on.key);
        let off = rest[i];
        let npairs = pairs.push((on, off));
        assert(npairs.map_values(|p: (NoteOn, NoteOff)| p.1) =~= pairs.map_values(
            |p: (NoteOn, NoteOff)| p.1,
        ).push(off));
        assert(rest.remove(i).insert(i, off) =~= rest);
        assert(rest.remove(i).insert(i, off).to_multiset() =~= rest.remove(i).to_multiset().insert(off));
    }
}

/// What `first_off` finds.
proof fn lemma_first_off(offs: Seq<NoteOff>, key: u8)
    ensures
        first_off(offs, key) == -1 || 0 <= first_off(offs, key) < offs.len(),
        first_off(offs, key) >= 0 ==> offs[first_off(offs, key)].key == key,
{
    lemma_position_from(off_keys(offs), key as u64, 0);
    if first_off(offs, key) >= 0 {
        assert(off_keys(offs)[first_off(offs, key)] == key as u64);
    }
}

/// The note made of a press and its release.
pub open spec fn is_note_of(note: RawNote, on: NoteOn, off: NoteOff) -> bool {
    &&& note.pitch.spec_value() == on.key
    &&& note.on == ClockTick::from_ticks(on.tick)
    &&& note.off == ClockTick::from_ticks(off.tick)
    &&& note.vel == on.vel
}

/// The series made by pushing the points one after the other, or `None` when a
/// point's key is already held when it comes.
pub open spec fn push_all<K: Key, V>(pts: Seq<(K, V)>) -> Option<(Seq<K>, Seq<V>)>
    decreases pts.len(),
{
    if pts.len() == 0 {
        Some((Seq::empty(), Seq::empty()))
    } else {
        match push_all(pts.drop_last()) {
            None => None,
            Some((xs, ys)) => pushed(xs, ys, pts.last().0, pts.last().1),
        }
    }
}

/// Once a push is refused, pushing more points is refused too.
proof fn lemma_push_all_refused<K: Key, V>(pts: Seq<(K, V)>, i: int, n: int)
    requires
        0 <= i <= n <= pts.len(),
        push_all(pts.take(i)) is None,
    ensures
        push_all(pts.take(n)) is None,
    decreases n - i,
{
    if i < n {
        assert(pts.take(i + 1).drop_last() == pts.take(i));
        lemma_push_all_refused(pts, i + 1, n);
    }
}

/// The controller series made by the changes in order: a controller's first
/// change starts its series, a later one is pushed onto it; `None` when a change
/// comes at a tick its controller already has.
pub open spec fn cc_series(ccs: Seq<ControlChange>) -> Option<Map<u8, (Seq<ClockTick>, Seq<u8>)>>
    decreases ccs.len(),
{
    if ccs.len() == 0 {
        Some(Map::empty())
    } else {
        match cc_series(ccs.drop_last()) {
            None => None,
            Some(m) => {
                let p = ccs.last();
                let tick = ClockTick::from_ticks(p.tick);
                if m.contains_key(p.control) {
                    match pushed(m[p.control].0, m[p.control].1, tick, p.val) {
                        Some(s) => Some(m.insert(p.control, s)),
                        None => None,
                    }
                } else {
                    Some(m.insert(p.control, (seq![tick], seq![p.val])))
                }
            },
        }
    }
}

/// Once a change is refused, more changes are refused too.
proof fn lemma_cc_series_refused(ccs: Seq<ControlChange>, i: int, n: int)
    requires
        0 <= i <= n <= ccs.len(),
        cc_series(ccs.take(i)) is None,
    ensures
        cc_series(ccs.take(n)) is None,
    decreases n - i,
{
    if i < n {
        assert(ccs.take(i + 1).drop_last() == ccs.take(i));
        lemma_cc_series_refused(ccs, i + 1, n);
    }
}

/// The keys and values of each series in a map.
pub open spec fn series_of<V: Copy>(m: Map<u8, XYPairs<ClockTick, V>>) -> Map<u8, (Seq<ClockTick>, Seq<V>)> {
    m.map_values(|p: XYPairs<ClockTick, V>| (p.xs(), p.ys()))
}

/// The pitch wheel points of the changes, by tick.
pub open spec fn bend_points(ps: Seq<PitchBend>) -> Seq<(ClockTick, u16)> {
    ps.map_values(|p: PitchBend| (ClockTick::from_ticks(p.tick), p.val))
}

/// The channel pressure points of the changes, by tick.
pub open spec fn pressure_points(ps: Seq<ChAftertouch>) -> Seq<(ClockTick, u8)> {
    ps.map_values(|p: ChAftertouch| (ClockTick::from_ticks(p.tick), p.vel))
}

/// A track decoded from MIDI: its names and number, its notes, its controller
/// series by controller, its pitch wheel and its channel pressure.
#[derive(Debug)]
pub struct MidiTrackBuilder {
    pub name: String,
    pub inst_name: String,
    pub track_nr: u8,
    pub notes: Vec<RawNote>,
    pub gen_data: HashMap<u8, XYPairs<ClockTick, u8>>,
    pub pitch_bend: XYPairs<ClockTick, u16>,
    pub ch_after_touch: XYPairs<ClockTick, u8>,
}


impl MidiTrackBuilder {
    /// Whether a song that already has the track numbers `taken` takes this
    /// track in: a track without notes is skipped (`Ok(false)`), one whose number
    /// is taken is refused with `Error::Overwrite`, and any other is taken in
    /// (`Ok(true)`).
    pub fn admission(&self, taken: &Vec<u8>) -> (res: Result<bool, Error>)
        ensures
            self.notes@.len() == 0 ==> res == Ok::<bool, Error>(false),
            self.notes@.len() != 0 && taken@.contains(self.track_nr) ==> res == Err::<bool, Error>(
                Error::Overwrite,
            ),
            self.notes@.len() != 0 && !taken@.contains(self.track_nr) ==> res == Ok::<bool, Error>(true),
    {
        if self.notes.len() == 0 {
            return Ok(false);
        }
        let mut i: usize = 0;
        while i < taken.len()
            invariant
                0 <= i <= taken@.len(),
                self.notes@.len() != 0,
                forall|j: int| 0 <= j < i ==> taken@[j] != self.track_nr,
            decreases taken@.len() - i,
        {
            if taken[i] == self.track_nr {
                return Err(Error::Overwrite);
            }
            i = i + 1;
        }
        Ok(true)
    }
}

/// The index of the first release of `key`, if there is one.
fn find_off(offs: &Vec<NoteOff>, key: u8) -> (res: Option<usize>)
    ensures
        match res {
            Some(i) => i == first_off(offs@, key) && i < offs@.len(),
            None => first_off(offs@, key) < 0,
        },
{
    let ghost ks = off_keys(offs@);
    let mut i: usize = 0;
    while i < offs.len()
        invariant
            0 <= i <= offs@.len(),
            ks == off_keys(offs@),
            position_from(ks, key as u64, 0) == position_from(ks, key as u64, i as int),
        decreases offs@.len() - i,
    {
        if offs[i].key == key {
            return Some(i);
        }
        i = i + 1;
    }
    None
}

/// Once a press finds no release, the pairing of more presses fails too.
proof fn lemma_pair_notes_refused(ons: Seq<NoteOn>, offs: Seq<NoteOff>, k: nat, n: nat)
    requires
        k <= n,
        pair_notes(ons, offs, k) is None,
    ensures
        pair_notes(ons, offs, n) is None,
    decreases n - k,
{
    if k < n {
        lemma_pair_notes_refused(ons, offs, k + 1, n);
    }
}

/// The notes made by pairing each press with a release, as `pair_notes` pairs
/// them, or `None` when that fails.
fn pair_all(ons: &Vec<NoteOn>, offs: Vec<NoteOff>) -> (res: Option<Vec<RawNote>>)
    ensures
        match pair_notes(ons@, offs@, ons@.len()) {
            Some((pairs, _)) => res matches Some(notes) && notes@.len() == pairs.len() && forall|
                i: int,
            |
                0 <= i < pairs.len() ==> is_note_of(#[trigger] notes@[i], pairs[i].0, pairs[i].1),
            None => res is None,
        },
{
    let mut rest = offs;
    let mut notes: Vec<RawNote> = Vec::new();
    let ghost mut pairs: Seq<(NoteOn, NoteOff)> = Seq::empty();
    let mut k: usize = 0;
    while k < ons.len()
        invariant
            0 <= k <= ons@.len(),
            pair_notes(ons@, offs@, k as nat) == Some((pairs, rest@)),
            notes@.len() == pairs.len(),
            forall|i: int|
                0 <= i < pairs.len() ==> is_note_of(#[trigger] notes@[i], pairs[i].0, pairs[i].1),
        decreases ons@.len() - k,
    {
        let on = ons[k];
        let found = find_off(&rest, on.key);
        let pitch = Pitch::new(on.key);
        match (found, pitch) {
            (Some(i), Some(pitch)) => {
                let off = rest.remove(i);
                notes.push(RawNote { pitch, on: ClockTick::new(on.tick), off: ClockTick::new(off.tick), vel: on.vel });
                proof {
                    pairs = pairs.push((on, off));
                }
            },
            _ => {
                proof {
                    assert(found is None ==> first_off(rest@, on.key) < 0);
                    assert(pitch is None ==> on.key >= 128);
                    assert(pair_notes(ons@, offs@, (k + 1) as nat) is None);
                    lemma_pair_notes_refused(ons@, offs@, (k + 1) as nat, ons@.len());
                }
                return None;
            },
        }
        k = k + 1;
    }
    Some(notes)
}

/// The pitch wheel series of the changes in order, or `None` when two come at
/// one tick.
fn bend_series(ps: &Vec<PitchBend>) -> (res: Option<XYPairs<ClockTick, u16>>)
    ensures
        match push_all(bend_points(ps@)) {
            Some((xs, ys)) => res matches Some(s) && s.wf() && s.xs() == xs && s.ys() == ys,
            None => res is None,
        },
{
    let ghost pts = bend_points(ps@);
    let mut s = XYPairs::new();
    let mut i: usize = 0;
    while i < ps.len()
        invariant
            0 <= i <= ps@.len(),
            pts == bend_points(ps@),
            s.wf(),
            push_all(pts.take(i as int)) == Some((s.xs(), s.ys())),
        decreases ps@.len() - i,
    {
        let p = ps[i];
        proof {
            assert(pts.take(i + 1).drop_last() == pts.take(i as int));
        }
        match s.push(ClockTick::new(p.tick), p.val) {
            Ok(()) => {},
            Err(_) => {
                proof {
                    lemma_push_all_refused(pts, i + 1, pts.len() as int);
                    assert(pts.take(pts.len() as int) == pts);
                }
                return None;
            },
        }
        i = i + 1;
    }
    proof {
        assert(pts.take(pts.len() as int) == pts);
    }
    Some(s)
}

/// The channel pressure series of the changes in order, or `None` when two come
/// at one tick.
fn pressure_series(ps: &Vec<ChAftertouch>) -> (res: Option<XYPairs<ClockTick, u8>>)
    ensures
        match push_all(pressure_points(ps@)) {
            Some((xs, ys)) => res matches Some(s) && s.wf() && s.xs() == xs && s.ys() == ys,
            None => res is None,
        },
{
    let ghost pts = pressure_points(ps@);
    let mut s = XYPairs::new();
    let mut i: usize = 0;
    while i < ps.len()
        invariant
            0 <= i <= ps@.len(),
            pts == pressure_points(ps@),
            s.wf(),
            push_all(pts.take(i as int)) == Some((s.xs(), s.ys())),
        decreases ps@.len() - i,
    {
        let p = ps[i];
        proof {
            assert(pts.take(i + 1).drop_last() == pts.take(i as int));
        }
        match s.push(ClockTick::new(p.tick), p.vel) {
            Ok(()) => {},
            Err(_) => {
                proof {
                    lemma_push_all_refused(pts, i + 1, pts.len() as int);
                    assert(pts.take(pts.len() as int) == pts);
                }
                return None;
            },
        }
        i = i + 1;
    }
    proof {
        assert(pts.take(pts.len() as int) == pts);
    }
    Some(s)
}

/// The controller series of the changes in order, by controller, or `None` when
/// a controller gets two changes at one tick.
fn cc_map(ccs: &Vec<ControlChange>) -> (res: Option<HashMap<u8, XYPairs<ClockTick, u8>>>)
    ensures
        match cc_series(ccs@) {
            Some(m) => res matches Some(h) && series_of(h@) == m && forall|c: u8|
                #[trigger] h@.contains_key(c) ==> h@[c].wf(),
            None => res is None,
        },
{
    broadcast use vstd::std_specs::hash::group_hash_axioms;
    let mut h: HashMap<u8, XYPairs<ClockTick, u8>> = HashMap::new();
    let mut i: usize = 0;
    proof {
        assert(series_of(h@) == Map::<u8, (Seq<ClockTick>, Seq<u8>)>::empty());
    }
    while i < ccs.len()
        invariant
            0 <= i <= ccs@.len(),
            cc_series(ccs@.take(i as int)) == Some(series_of(h@)),
            forall|c: u8| #[trigger] h@.contains_key(c) ==> h@[c].wf(),
        decreases ccs@.len() - i,
    {
        let p = ccs[i];
        let tick = ClockTick::new(p.tick);
        let ghost before = h@;
        proof {
            assert(ccs@.take(i + 1).drop_last() == ccs@.take(i as int));
        }
        match h.remove(&p.control) {
            Some(series) => {
                let mut series = series;
                match series.push(tick, p.val) {
                    Ok(()) => {
                        h.insert(p.control, series);
                        proof {
                            assert(series_of(h@) == series_of(before).insert(
                                p.control,
                                (series.xs(), series.ys()),
                            ));
                        }
                    },
                    Err(_) => {
                        proof {
                            lemma_cc_series_refused(ccs@, i + 1, ccs@.len() as int);
                            assert(ccs@.take(ccs@.len() as int) == ccs@);
                        }
                        return None;
                    },
                }
            },
            None => {
                let series = XYPairs::from_point(tick, p.val);
                h.insert(p.control, series);
                proof {
                    assert(series_of(h@) == series_of(before).insert(
                        p.control,
                        (series.xs(), series.ys()),
                    ));
                }
            },
        }
        i = i + 1;
    }
    proof {
        assert(ccs@.take(ccs@.len() as int) == ccs@);
    }
    Some(h)
}

impl AlmostTrack {
    /// Every press finds its release: there are as many releases as presses and
    /// `pair_notes` pairs them all.
    pub open spec fn pairable(&self) -> bool {
        &&& self.note_on@.len() == self.note_off@.len()
        &&& pair_notes(self.note_on@, self.note_off@, self.note_on@.len()) is Some
    }

    /// Tells whether every press finds its release.
    pub fn notes_pair(&self) -> (res: bool)
        ensures
            res == self.pairable(),
    {
        if self.note_on.len() != self.note_off.len() {
            return false;
        }
        let mut offs: Vec<NoteOff> = Vec::new();
        let mut i: usize = 0;
        while i < self.note_off.len()
            invariant
                0 <= i <= self.note_off@.len(),
                offs@ == self.note_off@.take(i as int),
            decreases self.note_off@.len() - i,
        {
            offs.push(self.note_off[i]);
            i = i + 1;
        }
        proof {
            assert(self.note_off@.take(self.note_off@.len() as int) == self.note_off@);
        }
        pair_all(&self.note_on, offs).is_some()
    }

    /// The decoded track: each press paired with a release into a note, and the
    /// pitch wheel, controller and channel pressure changes put into series by
    /// tick. A second pitch wheel or channel pressure change at one tick is
    /// refused with `Error::Overwrite`, a second change of one controller at one
    /// tick with `Error::Parse`. Key pressure is dropped.
    pub fn into_track(self) -> (res: Result<MidiTrackBuilder, Error>)
        requires
            self.pairable(),
        ensures
            match (
                push_all(bend_points(self.pitch_bend@)),
                cc_series(self.cc@),
                push_all(pressure_points(self.ch_after_touch@)),
            ) {
                (None, _, _) => res == Err::<MidiTrackBuilder, Error>(Error::Overwrite),
                (Some(_), None, _) => res == Err::<MidiTrackBuilder, Error>(Error::Parse),
                (Some(_), Some(_), None) => res == Err::<MidiTrackBuilder, Error>(Error::Overwrite),
                (Some((bxs, bys)), Some(m), Some((cxs, cys))) => res matches Ok(t) && {
                    &&& t.name == self.name
                    &&& t.inst_name == self.inst_name
                    &&& t.track_nr == self.number as u8
                    &&& pair_notes(self.note_on@, self.note_off@, self.note_on@.len()) matches Some(
                        (pairs, _),
                    ) && t.notes@.len() == pairs.len() && forall|i: int|
                        0 <= i < pairs.len() ==> is_note_of(
                            #[trigger] t.notes@[i],
                            pairs[i].0,
                            pairs[i].1,
                        )
                    &&& t.pitch_bend.wf() && t.pitch_bend.xs() == bxs && t.pitch_bend.ys() == bys
                    &&& series_of(t.gen_data@) == m
                    &&& forall|c: u8| #[trigger] t.gen_data@.contains_key(c) ==> t.gen_data@[c].wf()
                    &&& t.ch_after_touch.wf() && t.ch_after_touch.xs() == cxs
                        && t.ch_after_touch.ys() == cys
                },
            },
    {
        let AlmostTrack { name, inst_name, number, note_on, note_off, cc, pitch_bend, ch_after_touch, .. } = self;
        let notes = match pair_all(&note_on, note_off) {
            Some(notes) => notes,
            None => {
                return Err(Error::Parse);
            },
        };
        let pitch_bend = match bend_series(&pitch_bend) {
            Some(s) => s,
            None => {
                return Err(Error::Overwrite);
            },
        };
        let gen_data = match cc_map(&cc) {
            Some(h) => h,
            None => {
                return Err(Error::Parse);
            },
        };
        let ch_after_touch = match pressure_series(&ch_after_touch) {
            Some(s) => s,
            None => {
                return Err(Error::Overwrite);
            },
        };
        Ok(MidiTrackBuilder { name, inst_name, track_nr: number as u8, notes, gen_data, pitch_bend, ch_after_touch })
    }
}

/// A channel message of a MIDI track, with its data bytes.
#[derive(Debug, Clone, Copy, PartialEq, Eq, Structural)]
pub enum MidiMessage {
    NoteOff { key: u8, vel: u8 },
    NoteOn { key: u8, vel: u8 },
    Aftertouch { key: u8, vel: u8 },
    Controller { controller: u8, value: u8 },
    ProgramChange { program: u8 },
    ChannelAftertouch { vel: u8 },
    PitchBend { bend: u16 },
}

/// A meta message of a MIDI track, as far as decoding reads it; the names are
/// already text, and a track or instrument name that is not UTF-8 is
/// `UnreadableName`.
#[derive(Debug)]
pub enum MetaMessage {
    TrackNumber(Option<u16>),
    TrackName(String),
    InstrumentName(String),
    UnreadableName,
    Tempo(u32),
    TimeSignature(u8, u8, u8, u8),
    Ignored,
}

/// What an event of a MIDI track carries.
#[derive(Debug)]
pub enum TrackEventKind {
    Midi { channel: u8, message: MidiMessage },
    SysEx,
    Escape,
    Meta(MetaMessage),
}

/// An event of a MIDI track: the ticks since the event before it, and what it carries.
#[derive(Debug)]
pub struct TrackEvent {
    pub delta: u32,
    pub kind: TrackEventKind,
}

/// The contents of an `AlmostTrack` as plain values.
pub struct TrackModel {
    pub name: Seq<char>,
    pub inst_name: Seq<char>,
    pub number: u16,
    pub note_on: Seq<NoteOn>,
    pub note_off: Seq<NoteOff>,
    pub after_touch: Seq<AfterTouch>,
    pub ch_after_touch: Seq<ChAftertouch>,
    pub cc: Seq<ControlChange>,
    pub pitch_bend: Seq<PitchBend>,
}

/// The tempo changes and time signatures of a `TimeDecoder` as plain values.
pub struct DecoderModel {
    pub tempo_ticks: Seq<u32>,
    pub tempos: Seq<u32>,
    pub sig_ticks: Seq<u32>,
    pub sigs: Seq<MidiSig>,
}

impl AlmostTrack {
    /// The track's contents.
    pub open spec fn model(&self) -> TrackModel {
        TrackModel {
            name: self.name@,
            inst_name: self.inst_name@,
            number: self.number,
            note_on: self.note_on@,
            note_off: self.note_off@,
            after_touch: self.after_touch@,
            ch_after_touch: self.ch_after_touch@,
            cc: self.cc@,
            pitch_bend: self.pitch_bend@,
        }
    }
}

impl TimeDecoder {
    /// The decoder's tempo changes and signatures.
    pub open spec fn model(&self) -> DecoderModel {
        DecoderModel {
            tempo_ticks: self.mus_per_beat.xs(),
            tempos: self.mus_per_beat.ys(),
            sig_ticks: self.time_signatures.xs(),
            sigs: self.time_signatures.ys(),
        }
    }
}

/// The outcome of a step of decoding: the decoding panics, a time signature is
/// refused (with the tempo changes and signatures so far), or it goes on.
pub enum Step {
    Panics,
    Refused(DecoderModel),
    Done(TrackModel, DecoderModel),
}

/// What a meta message at tick `tick` does: it sets the track's number or names
/// (a name that is not UTF-8 panics), records a tempo change (a second one at a tick panics) or a time signature (a
/// denominator of `2^8` or more panics, a second one at a tick is refused), or
/// is ignored.
pub open spec fn meta_step(msg: MetaMessage, t: TrackModel, d: DecoderModel, tick: u32) -> Step {
    match msg {
        MetaMessage::TrackNumber(Some(n)) => Step::Done(TrackModel { number: n, ..t }, d),
        MetaMessage::TrackName(name) => Step::Done(TrackModel { name: name@, ..t }, d),
        MetaMessage::InstrumentName(name) => Step::Done(TrackModel { inst_name: name@, ..t }, d),
        MetaMessage::UnreadableName => Step::Panics,
        MetaMessage::Tempo(v) => match pushed(d.tempo_ticks, d.tempos, tick, v) {
            Some((xs, ys)) => Step::Done(t, DecoderModel { tempo_ticks: xs, tempos: ys, ..d }),
            None => Step::Panics,
        },
        MetaMessage::TimeSignature(num, lb_den, _, n32) => if lb_den >= 8 {
            Step::Panics
        } else {
            match pushed(d.sig_ticks, d.sigs, tick, signature(num, lb_den, n32)) {
                Some((xs, ys)) => Step::Done(t, DecoderModel { sig_ticks: xs, sigs: ys, ..d }),
                None => Step::Refused(d),
            }
        },
        _ => Step::Done(t, d),
    }
}

/// What a channel message at tick `tick` adds to the track; a program change
/// adds nothing.
pub open spec fn midi_step(msg: MidiMessage, t: TrackModel, tick: u32) -> TrackModel {
    match msg {
        MidiMessage::NoteOn { key, vel } => TrackModel {
            note_on: t.note_on.push(NoteOn { tick, key, vel }),
            ..t
        },
        MidiMessage::NoteOff { key, vel: _ } => TrackModel {
            note_off: t.note_off.push(NoteOff { tick, key }),
            ..t
        },
        MidiMessage::Controller { controller, value } => TrackModel {
            cc: t.cc.push(ControlChange { tick, control: controller, val: value }),
            ..t
        },
        MidiMessage::PitchBend { bend } => TrackModel {
            pitch_bend: t.pitch_bend.push(PitchBend { tick, val: bend }),
            ..t
        },
        MidiMessage::Aftertouch { key, vel } => TrackModel {
            after_touch: t.after_touch.push(AfterTouch { tick, key, vel }),
            ..t
        },
        MidiMessage::ChannelAftertouch { vel } => TrackModel {
            ch_after_touch: t.ch_after_touch.push(ChAftertouch { tick, vel }),
            ..t
        },
        MidiMessage::ProgramChange { .. } => t,
    }
}

/// Where decoding a track's events stands: it panicked, a time signature was
/// refused, or it goes on at a tick with the track and decoder so far.
pub enum Progress {
    Panicked,
    Refused(DecoderModel),
    Going(u32, TrackModel, DecoderModel),
}

/// Decoding the first `n` events, starting at tick zero from the track `t0` and
/// the decoder `d0`: each event's tick is the sum of the deltas so far (past
/// `u32::MAX` it panics), channel messages go to the track, meta messages as
/// `meta_step` says, system messages are skipped; decoding stops at the first
/// refusal.
pub open spec fn decode_events(evs: Seq<TrackEvent>, n: nat, t0: TrackModel, d0: DecoderModel) -> Progress
    decreases n,
{
    if n == 0 {
        Progress::Going(0, t0, d0)
    } else {
        match decode_events(evs, (n - 1) as nat, t0, d0) {
            Progress::Going(ticks, t, d) => {
                let ev = evs[n - 1];
                if ticks + ev.delta > u32::MAX {
                    Progress::Panicked
                } else {
                    let tick = (ticks + ev.delta) as u32;
                    match ev.kind {
                        TrackEventKind::Meta(msg) => match meta_step(msg, t, d, tick) {
                            Step::Panics => Progress::Panicked,
                            Step::Refused(d2) => Progress::Refused(d2),
                            Step::Done(t2, d2) => Progress::Going(tick, t2, d2),
                        },
                        TrackEventKind::Midi { channel: _, message } => Progress::Going(
                            tick,
                            midi_step(message, t, tick),
                            d,
                        ),
                        _ => Progress::Going(tick, t, d),
                    }
                }
            },
            other => other,
        }
    }
}

/// A time signature message `FF 58 nn dd cc bb` with `dd < 8`, at a tick that
/// has no signature yet, goes on and records one signature at that tick: `nn`
/// beats per bar, a beat of a `2^dd`-th note and `bb` 32nd notes per beat (the
/// metronome byte `cc` is not kept); the track and the tempo changes are left as
/// they were.
pub proof fn lemma_time_signature_recorded(
    num: u8,
    lb_den: u8,
    clocks: u8,
    n32: u8,
    t: TrackModel,
    d: DecoderModel,
    tick: u32,
)
    requires
        lb_den < 8,
        d.sig_ticks.len() == d.sigs.len(),
        d.sig_ticks.len() < usize::MAX,
        !d.sig_ticks.contains(tick),
    ensures
        ({
            let r = meta_step(MetaMessage::TimeSignature(num, lb_den, clocks, n32), t, d, tick);
            &&& r is Done
            &&& r->Done_0 == t
            &&& r->Done_1.tempo_ticks == d.tempo_ticks
            &&& r->Done_1.tempos == d.tempos
            &&& exists|k: int| 0 <= k <= d.sig_ticks.len() && r->Done_1.sig_ticks == d.sig_ticks.insert(k, tick)
            &&& exists|k: int, sig: MidiSig|
                0 <= k <= d.sigs.len() && r->Done_1.sigs == d.sigs.insert(k, sig) && sig.parts() == (
                    num,
                    two_to(lb_den as nat) as u8,
                    n32,
                )
        }),
{
    let sig = signature(num, lb_den, n32);
    let xs = d.sig_ticks;
    let ys = d.sigs;
    if xs.len() == 0 {
        assert(seq![tick] == xs.insert(0, tick));
        assert(seq![sig] == ys.insert(0, sig));
    } else {
        let ks = keys_of(xs);
        lemma_locate(ks, tick.key_view());
        match locate(ks, tick.key_view()) {
            MyRes::Equal(i) => {
                assert(ks[i as int] == xs[i as int] as u64);
                assert(xs[i as int] == tick);
                assert(false);
            },
            MyRes::ToLow(_) => {},
            MyRes::ToHigh(_) => {
                assert(xs.push(tick) == xs.insert(xs.len() as int, tick));
                assert(ys.push(sig) == ys.insert(ys.len() as int, sig));
            },
            MyRes::Between(low, high) => {},
        }
    }
}

/// A fresh track numbered `number`, as plain values.
pub open spec fn empty_track(number: u16) -> TrackModel {
    TrackModel {
        name: Seq::empty(),
        inst_name: Seq::empty(),
        number,
        note_on: Seq::empty(),
        note_off: Seq::empty(),
        after_touch: Seq::empty(),
        ch_after_touch: Seq::empty(),
        cc: Seq::empty(),
        pitch_bend: Seq::empty(),
    }
}

/// Applies a meta message at tick `current_ticks` to the track and the decoder,
/// as `meta_step` says; a refused time signature gives `Error::Parse` and leaves
/// both as they were.
pub fn decode_meta_msg(msg: &MetaMessage, data: &mut AlmostTrack, time_decoder: &mut TimeDecoder, current_ticks: u32) -> (res: Result<(), Error>)
    requires
        old(time_decoder).wf(),
        !(meta_step(*msg, old(data).model(), old(time_decoder).model(), current_ticks) is Panics),
    ensures
        final(time_decoder).wf(),
        final(time_decoder).midi_timeing == old(time_decoder).midi_timeing,
        match meta_step(*msg, old(data).model(), old(time_decoder).model(), current_ticks) {
            Step::Done(t, d) => res is Ok && final(data).model() == t && final(time_decoder).model()
                == d,
            Step::Refused(d) => res == Err::<(), Error>(Error::Parse) && final(data).model() == old(data).model() && final(time_decoder).model() == d,
            Step::Panics => false,
        },
{
    match msg {
        MetaMessage::TrackNumber(opt) => {
            if let Some(val) = opt {
                data.change_number(*val);
            }
            Ok(())
        },
        MetaMessage::TrackName(name) => {
            data.change_name(name.as_str());
            Ok(())
        },
        MetaMessage::InstrumentName(name) => {
            data.change_inst_name(name.as_str());
            Ok(())
        },
        MetaMessage::Tempo(tempo) => time_decoder.mus_per_beat(current_ticks, *tempo),
        MetaMessage::TimeSignature(num, lb_den, _metronome, n32nd_per_beat) => {
            time_decoder.push_signature(current_ticks, *num, *lb_den, *n32nd_per_beat)
        },
        MetaMessage::UnreadableName => Ok(()),
        MetaMessage::Ignored => Ok(()),
    }
}

/// Whether the meta message at tick `current_ticks` is one decoding panics on.
fn meta_panics(msg: &MetaMessage, data: &AlmostTrack, time_decoder: &TimeDecoder, current_ticks: u32) -> (res: bool)
    requires
        time_decoder.wf(),
    ensures
        res == (meta_step(*msg, data.model(), time_decoder.model(), current_ticks) is Panics),
{
    match msg {
        MetaMessage::Tempo(_) => time_decoder.mus_per_beat.has_key(current_ticks),
        MetaMessage::TimeSignature(_, lb_den, _, _) => *lb_den >= 8,
        MetaMessage::UnreadableName => true,
        _ => false,
    }
}

/// Once decoding stops, decoding more events changes nothing.
proof fn lemma_decode_stopped(evs: Seq<TrackEvent>, k: nat, n: nat, t0: TrackModel, d0: DecoderModel)
    requires
        k <= n,
        !(decode_events(evs, k, t0, d0) is Going),
    ensures
        decode_events(evs, n, t0, d0) == decode_events(evs, k, t0, d0),
    decreases n - k,
{
    if k < n {
        lemma_decode_stopped(evs, k, (n - 1) as nat, t0, d0);
    }
}

/// How decoding a track ended short of a track.
#[derive(Debug, Clone, Copy, PartialEq, Eq, Structural)]
pub enum TrackStop {
    /// A time signature came at a tick that already has one.
    Refused,
    /// An event that the decoding of a MIDI file panics on: the ticks run past
    /// `u32::MAX`, a second tempo change comes at a tick, a time signature has a
    /// denominator of `2^8` or more, or a track or instrument name is not UTF-8.
    Panics,
}

/// Decodes the events of a track numbered `track_index`, as `decode_events`
/// says, recording tempo changes and time signatures in `time_decoder`; it stops
/// with `TrackStop::Panics` before an event decoding panics on.
pub fn decode_track(track: &[TrackEvent], time_decoder: &mut TimeDecoder, track_index: u16) -> (res: Result<AlmostTrack, TrackStop>)
    requires
        old(time_decoder).wf(),
    ensures
        final(time_decoder).wf(),
        final(time_decoder).midi_timeing == old(time_decoder).midi_timeing,
        match decode_events(track@, track@.len(), empty_track(track_index), old(time_decoder).model()) {
            Progress::Going(_, t, d) => res matches Ok(a) && a.model() == t && final(time_decoder).model() == d,
            Progress::Refused(d) => res matches Err(e) && e == TrackStop::Refused && final(time_decoder).model() == d,
            Progress::Panicked => res matches Err(e) && e == TrackStop::Panics,
        },
{
    let ghost evs = track@;
    let ghost t0 = empty_track(track_index);
    let ghost d0 = time_decoder.model();
    let mut data = AlmostTrack::new(track_index);
    let mut current_ticks: u32 = 0;
    let mut i: usize = 0;
    while i < track.len()
        invariant
            0 <= i <= evs.len(),
            evs == track@,
            t0 == empty_track(track_index),
            d0 == old(time_decoder).model(),
            time_decoder.wf(),
            time_decoder.midi_timeing == old(time_decoder).midi_timeing,
            decode_events(evs, i as nat, t0, d0) == Progress::Going(
                current_ticks,
                data.model(),
                time_decoder.model(),
            ),
        decreases evs.len() - i,
    {
        let event = &track[i];
        if event.delta > u32::MAX - current_ticks {
            proof {
                lemma_decode_stopped(evs, (i + 1) as nat, evs.len(), t0, d0);
            }
            return Err(TrackStop::Panics);
        }
        current_ticks = current_ticks + event.delta;
        match &event.kind {
            TrackEventKind::Meta(msg) => {
                proof {
                    assert(evs[i as int].kind == TrackEventKind::Meta(*msg));
                }
                if meta_panics(msg, &data, time_decoder, current_ticks) {
                    proof {
                        assert(decode_events(evs, (i + 1) as nat, t0, d0) is Panicked);
                        lemma_decode_stopped(evs, (i + 1) as nat, evs.len(), t0, d0);
                    }
                    return Err(TrackStop::Panics);
                }
                match decode_meta_msg(msg, &mut data, time_decoder, current_ticks) {
                    Ok(()) => {},
                    Err(_) => {
                        proof {
                            assert(decode_events(evs, (i + 1) as nat, t0, d0) == Progress::Refused(
                                time_decoder.model(),
                            ));
                            lemma_decode_stopped(evs, (i + 1) as nat, evs.len(), t0, d0);
                        }
                        return Err(TrackStop::Refused);
                    },
                }
            },
            TrackEventKind::Midi { channel: _, message } => match *message {
                MidiMessage::NoteOn { key, vel } => data.push_note_on(current_ticks, key, vel),
                MidiMessage::NoteOff { key, vel: _ } => data.push_note_off(current_ticks, key),
                MidiMessage::Controller { controller, value } => data.push_cc(current_ticks, controller, value),
                MidiMessage::PitchBend { bend } => data.push_pitch_bend(current_ticks, bend),
                MidiMessage::Aftertouch { key, vel } => data.push_after_touch(current_ticks, key, vel),
                MidiMessage::ChannelAftertouch { vel } => data.push_ch_after_touch(current_ticks, vel),
                MidiMessage::ProgramChange { program: _ } => {},
            },
            TrackEventKind::SysEx => {},
            TrackEventKind::Escape => {},
        }
        i = i + 1;
    }
    Ok(data)
}

/// Decodes the events of a track numbered `track_index`, as `decode_events`
/// says, recording tempo changes and time signatures in `time_decoder`; a
/// refused time signature gives `Error::Parse`.
pub fn parse_midi_track(track: &[TrackEvent], time_decoder: &mut TimeDecoder, track_index: u16) -> (res: Result<AlmostTrack, Error>)
    requires
        old(time_decoder).wf(),
        !(decode_events(track@, track@.len(), empty_track(track_index), old(time_decoder).model()) is Panicked),
    ensures
        final(time_decoder).wf(),
        final(time_decoder).midi_timeing == old(time_decoder).midi_timeing,
        match decode_events(track@, track@.len(), empty_track(track_index), old(time_decoder).model()) {
            Progress::Going(_, t, d) => res matches Ok(a) && a.model() == t && final(time_decoder).model() == d,
            Progress::Refused(d) => res matches Err(e) && e == Error::Parse && final(time_decoder).model() == d,
            Progress::Panicked => false,
        },
{
    match decode_track(track, time_decoder, track_index) {
        Ok(data) => Ok(data),
        Err(_) => Err(Error::Parse),
    }
}

/// Whether decoding the events of a track numbered `track_index` from
/// `time_decoder` runs into an event decoding panics on; `time_decoder` is
/// left as it is.
pub fn track_decode_panics(track: &[TrackEvent], time_decoder: &TimeDecoder, track_index: u16) -> (res: bool)
    requires
        time_decoder.wf(),
    ensures
        res == (decode_events(track@, track@.len(), empty_track(track_index), time_decoder.model()) is Panicked),
{
    let mut trial = TimeDecoder {
        midi_timeing: time_decoder.midi_timeing,
        mus_per_beat: time_decoder.mus_per_beat.duplicate(),
        time_signatures: time_decoder.time_signatures.duplicate(),
    };
    match decode_track(track, &mut trial, track_index) {
        Err(TrackStop::Panics) => true,
        _ => false,
    }
}

/// The ticks of `s` never decrease, and none is past `upto`.
pub open spec fn ordered<T>(s: Seq<T>, tick: spec_fn(T) -> u32, upto: u32) -> bool {
    &&& forall|i: int, j: int| 0 <= i < j < s.len() ==> tick(s[i]) <= tick(s[j])
    &&& forall|i: int| 0 <= i < s.len() ==> tick(s[i]) <= upto
}

/// Every list of events of the track is in tick order, up to `upto`.
pub open spec fn in_tick_order(t: TrackModel, upto: u32) -> bool {
    &&& ordered(t.note_on, |e: NoteOn| e.tick, upto)
    &&& ordered(t.note_off, |e: NoteOff| e.tick, upto)
    &&& ordered(t.after_touch, |e: AfterTouch| e.tick, upto)
    &&& ordered(t.ch_after_touch, |e: ChAftertouch| e.tick, upto)
    &&& ordered(t.cc, |e: ControlChange| e.tick, upto)
    &&& ordered(t.pitch_bend, |e: PitchBend| e.tick, upto)
}

proof fn lemma_ordered_later<T>(s: Seq<T>, tick: spec_fn(T) -> u32, a: u32, b: u32, x: T)
    requires
        ordered(s, tick, a),
        a <= b,
        tick(x) == b,
    ensures
        ordered(s, tick, b),
        ordered(s.push(x), tick, b),
{
}

/// Decoding a track from a fresh track puts every list of events in tick order:
/// the ticks of the events of each kind never decrease, and none is past the
/// tick decoding has reached.
pub proof fn lemma_decoded_in_tick_order(evs: Seq<TrackEvent>, n: nat, number: u16, d0: DecoderModel)
    ensures
        decode_events(evs, n, empty_track(number), d0) matches Progress::Going(ticks, t, _)
            ==> in_tick_order(t, ticks),
    decreases n,
{
    if n > 0 {
        lemma_decoded_in_tick_order(evs, (n - 1) as nat, number, d0);
        if let Progress::Going(ticks, t, d) = decode_events(evs, (n - 1) as nat, empty_track(number), d0) {
            let ev = evs[n - 1];
            if ticks + ev.delta <= u32::MAX {
                let tick = (ticks + ev.delta) as u32;
                lemma_ordered_later(t.note_on, |e: NoteOn| e.tick, ticks, tick, NoteOn { tick, key: 0, vel: 0 });
                lemma_ordered_later(t.note_off, |e: NoteOff| e.tick, ticks, tick, NoteOff { tick, key: 0 });
                lemma_ordered_later(t.after_touch, |e: AfterTouch| e.tick, ticks, tick, AfterTouch { tick, key: 0, vel: 0 });
                lemma_ordered_later(t.ch_after_touch, |e: ChAftertouch| e.tick, ticks, tick, ChAftertouch { tick, vel: 0 });
                lemma_ordered_later(t.cc, |e: ControlChange| e.tick, ticks, tick, ControlChange { tick, control: 0, val: 0 });
                lemma_ordered_later(t.pitch_bend, |e: PitchBend| e.tick, ticks, tick, PitchBend { tick, val: 0 });
                match ev.kind {
                    TrackEventKind::Midi { channel: _, message } => {
                        match message {
                            MidiMessage::NoteOn { key, vel } => {
                                lemma_ordered_later(t.note_on, |e: NoteOn| e.tick, ticks, tick, NoteOn { tick, key, vel });
                            },
                            MidiMessage::NoteOff { key, vel: _ } => {
                                lemma_ordered_later(t.note_off, |e: NoteOff| e.tick, ticks, tick, NoteOff { tick, key });
                            },
                            MidiMessage::Controller { controller, value } => {
                                lemma_ordered_later(t.cc, |e: ControlChange| e.tick, ticks, tick, ControlChange { tick, control: controller, val: value });
                            },
                            MidiMessage::PitchBend { bend } => {
                                lemma_ordered_later(t.pitch_bend, |e: PitchBend| e.tick, ticks, tick, PitchBend { tick, val: bend });
                            },
                            MidiMessage::Aftertouch { key, vel } => {
                                lemma_ordered_later(t.after_touch, |e: AfterTouch| e.tick, ticks, tick, AfterTouch { tick, key, vel });
                            },
                            MidiMessage::ChannelAftertouch { vel } => {
                                lemma_ordered_later(t.ch_after_touch, |e: ChAftertouch| e.tick, ticks, tick, ChAftertouch { tick, vel });
                            },
                            MidiMessage::ProgramChange { .. } => {},
                        }
                    },
                    _ => {},
                }
            }
        }
    }
}

/// Two neighbouring points of `pts` share a key.
pub open spec fn has_clash<K: Key, V>(pts: Seq<(K, V)>) -> bool {
    exists|i: int| 0 <= i < pts.len() - 1 && #[trigger] pts[i].0.key_view() == pts[i + 1].0.key_view()
}

/// Pushing points in key order builds the series of those points in that order,
/// with strictly increasing keys; it is refused exactly when two neighbouring
/// points share a key.
pub proof fn lemma_push_all_in_order<K: Key, V>(pts: Seq<(K, V)>)
    requires
        pts.len() < usize::MAX,
        forall|i: int, j: int| 0 <= i < j < pts.len() ==> pts[i].0.key_view() <= pts[j].0.key_view(),
    ensures
        push_all(pts) is None <==> has_clash(pts),
        push_all(pts) matches Some((xs, ys)) ==> xs == pts.map_values(|p: (K, V)| p.0) && ys
            == pts.map_values(|p: (K, V)| p.1) && strictly_increasing(keys_of(xs)),
    decreases pts.len(),
{
    if pts.len() > 0 {
        let q = pts.drop_last();
        let (x, y) = pts.last();
        lemma_push_all_in_order(q);
        if has_clash(q) {
            let i = choose|i: int| 0 <= i < q.len() - 1 && #[trigger] q[i].0.key_view() == q[i + 1].0.key_view();
            assert(pts[i] == q[i] && pts[i + 1] == q[i + 1]);
        } else {
            let (xs, ys) = push_all(q).unwrap();
            if q.len() == 0 {
                assert(push_all(pts) == Some::<(Seq<K>, Seq<V>)>((seq![x], seq![y])));
                assert(xs.push(x) =~= pts.map_values(|p: (K, V)| p.0));
                assert(ys.push(y) =~= pts.map_values(|p: (K, V)| p.1));
            } else {
                let ks = keys_of(xs);
                let n = ks.len();
                lemma_locate(ks, x.key_view());
                assert(ks[n - 1] == q[n - 1].0.key_view());
                assert(pts[n - 1] == q[n - 1]);
                if x.key_view() == ks[n - 1] {
                    assert(locate(ks, x.key_view()) is Equal);
                    assert(pts[n - 1].0.key_view() == pts[n as int].0.key_view());
                } else {
                    assert forall|j: int| 0 <= j < n implies ks[j] < x.key_view() by {
                        assert(ks[j] == q[j].0.key_view());
                        assert(pts[j] == q[j]);
                    }
                    assert(locate(ks, x.key_view()) is ToHigh);
                    assert(xs.push(x) =~= pts.map_values(|p: (K, V)| p.0));
                    assert(ys.push(y) =~= pts.map_values(|p: (K, V)| p.1));
                    assert(keys_of(xs.push(x)) =~= ks.push(x.key_view()));
                    assert forall|i: int| 0 <= i < pts.len() - 1 implies #[trigger] pts[i].0.key_view() != pts[i + 1].0.key_view() by {
                        if i < n - 1 {
                            assert(pts[i] == q[i] && pts[i + 1] == q[i + 1]);
                        } else {
                            assert(pts[i] == q[n - 1]);
                        }
                    }
                }
            }
        }
    }
}

/// Decoding a track gives its changes in tick order, so the series `into_track`
/// builds from them have strictly increasing ticks: each controller's series,
/// and the pitch wheel and channel pressure series, which hold the changes in
/// the order decoded; building one of the latter two is refused exactly when two
/// neighbouring changes share a tick.
pub proof fn lemma_decoded_series_in_order(evs: Seq<TrackEvent>, n: nat, number: u16, d0: DecoderModel)
    ensures
        decode_events(evs, n, empty_track(number), d0) matches Progress::Going(ticks, t, _) ==> {
            &&& t.cc.len() < usize::MAX ==> (cc_series(t.cc) matches Some(m) ==> series_in_order(m, ticks))
            &&& t.pitch_bend.len() < usize::MAX ==> {
                &&& push_all(bend_points(t.pitch_bend)) is None <==> has_clash(bend_points(t.pitch_bend))
                &&& push_all(bend_points(t.pitch_bend)) matches Some((xs, ys)) ==> strictly_increasing(
                    keys_of(xs),
                ) && ys == t.pitch_bend.map_values(|p: PitchBend| p.val)
            }
            &&& t.ch_after_touch.len() < usize::MAX ==> {
                &&& push_all(pressure_points(t.ch_after_touch)) is None <==> has_clash(
                    pressure_points(t.ch_after_touch),
                )
                &&& push_all(pressure_points(t.ch_after_touch)) matches Some((xs, ys)) ==> strictly_increasing(
                    keys_of(xs),
                ) && ys == t.ch_after_touch.map_values(|p: ChAftertouch| p.vel)
            }
        },
{
    broadcast use crate::time::lemma_from_ticks;

    lemma_decoded_in_tick_order(evs, n, number, d0);
    if let Progress::Going(ticks, t, _) = decode_events(evs, n, empty_track(number), d0) {
        if t.cc.len() < usize::MAX {
            lemma_cc_series_in_order(t.cc, ticks);
        }
        if t.pitch_bend.len() < usize::MAX {
            let pts = bend_points(t.pitch_bend);
            assert forall|i: int, j: int| 0 <= i < j < pts.len() implies pts[i].0.key_view() <= pts[j].0.key_view() by {
                assert(pts[i].0.key_view() == t.pitch_bend[i].tick);
                assert(pts[j].0.key_view() == t.pitch_bend[j].tick);
            }
            lemma_push_all_in_order(pts);
            if let Some((xs, ys)) = push_all(pts) {
                assert(ys =~= t.pitch_bend.map_values(|p: PitchBend| p.val));
            }
        }
        if t.ch_after_touch.len() < usize::MAX {
            let pts = pressure_points(t.ch_after_touch);
            assert forall|i: int, j: int| 0 <= i < j < pts.len() implies pts[i].0.key_view() <= pts[j].0.key_view() by {
                assert(pts[i].0.key_view() == t.ch_after_touch[i].tick);
                assert(pts[j].0.key_view() == t.ch_after_touch[j].tick);
            }
            lemma_push_all_in_order(pts);
            if let Some((xs, ys)) = push_all(pts) {
                assert(ys =~= t.ch_after_touch.map_values(|p: ChAftertouch| p.vel));
            }
        }
    }
}

/// Pushing a point whose key is at least every held key of a series with
/// strictly increasing keys either is refused (the key is the last one) or
/// appends the point, keeping the keys strictly increasing.
proof fn lemma_push_at_end<K: Key, V>(xs: Seq<K>, ys: Seq<V>, x: K, y: V)
    requires
        xs.len() == ys.len(),
        xs.len() <= usize::MAX,
        strictly_increasing(keys_of(xs)),
        forall|i: int| 0 <= i < xs.len() ==> keys_of(xs)[i] <= x.key_view(),
    ensures
        match pushed(xs, ys, x, y) {
            None => xs.len() > 0 && keys_of(xs)[xs.len() - 1] == x.key_view(),
            Some((nxs, nys)) => nxs == xs.push(x) && nys == ys.push(y) && strictly_increasing(
                keys_of(nxs),
            ),
        },
{
    if xs.len() > 0 {
        let ks = keys_of(xs);
        let n = ks.len();
        lemma_locate(ks, x.key_view());
        if x.key_view() == ks[n - 1] {
            assert(locate(ks, x.key_view()) is Equal);
        } else {
            assert(locate(ks, x.key_view()) is ToHigh);
            assert(keys_of(xs.push(x)) =~= ks.push(x.key_view()));
        }
    } else {
        assert(keys_of(seq![x]) =~= seq![x.key_view()]);
    }
}

/// Every controller series of `m` has strictly increasing ticks, none past `upto`.
pub open spec fn series_in_order(m: Map<u8, (Seq<ClockTick>, Seq<u8>)>, upto: u32) -> bool {
    forall|c: u8| #[trigger] m.contains_key(c) ==> {
        &&& m[c].0.len() == m[c].1.len()
        &&& strictly_increasing(keys_of(m[c].0))
        &&& forall|i: int| 0 <= i < m[c].0.len() ==> keys_of(m[c].0)[i] <= upto
    }
}

/// Controller changes in tick order build, for each controller, a series with
/// strictly increasing ticks.
pub proof fn lemma_cc_series_in_order(ccs: Seq<ControlChange>, upto: u32)
    requires
        ordered(ccs, |e: ControlChange| e.tick, upto),
        ccs.len() < usize::MAX,
    ensures
        cc_series(ccs) matches Some(m) ==> series_in_order(m, upto),
{
    lemma_cc_series_bounded(ccs, upto);
}

/// As `lemma_cc_series_in_order`, with no series longer than the changes.
proof fn lemma_cc_series_bounded(ccs: Seq<ControlChange>, upto: u32)
    requires
        ordered(ccs, |e: ControlChange| e.tick, upto),
        ccs.len() < usize::MAX,
    ensures
        cc_series(ccs) matches Some(m) ==> series_in_order(m, upto) && forall|c: u8|
            #[trigger] m.contains_key(c) ==> m[c].0.len() <= ccs.len(),
    decreases ccs.len(),
{
    broadcast use crate::time::lemma_from_ticks;

    if ccs.len() > 0 {
        let q = ccs.drop_last();
        let p = ccs.last();
        assert(ordered(q, |e: ControlChange| e.tick, p.tick)) by {
            assert forall|i: int| 0 <= i < q.len() implies q[i].tick <= p.tick by {
                assert(q[i] == ccs[i]);
            }
            assert forall|i: int, j: int| 0 <= i < j < q.len() implies q[i].tick <= q[j].tick by {
                assert(q[i] == ccs[i] && q[j] == ccs[j]);
            }
        }
        lemma_cc_series_bounded(q, p.tick);
        if let Some(m) = cc_series(q) {
            let tick = ClockTick::from_ticks(p.tick);
            let c0 = p.control;
            if m.contains_key(c0) {
                lemma_push_at_end(m[c0].0, m[c0].1, tick, p.val);
                if let Some(s) = pushed(m[c0].0, m[c0].1, tick, p.val) {
                    let m2 = m.insert(c0, s);
                    assert(cc_series(ccs) == Some(m2));
                    assert forall|c: u8| #[trigger] m2.contains_key(c) implies {
                        &&& m2[c].0.len() == m2[c].1.len()
                        &&& strictly_increasing(keys_of(m2[c].0))
                        &&& forall|i: int| 0 <= i < m2[c].0.len() ==> keys_of(m2[c].0)[i] <= upto
                        &&& m2[c].0.len() <= ccs.len()
                    } by {
                        if c != c0 {
                            assert(m2[c] == m[c]);
                        } else {
                            assert(m2[c].0 == m[c0].0.push(tick));
                            assert forall|i: int| 0 <= i < m2[c].0.len() implies keys_of(m2[c].0)[i] <= upto by {
                                if i < m[c0].0.len() {
                                    assert(keys_of(m2[c].0)[i] == keys_of(m[c0].0)[i]);
                                }
                            }
                        }
                    }
                }
            } else {
                let m2 = m.insert(c0, (seq![tick], seq![p.val]));
                assert(cc_series(ccs) == Some(m2));
                assert(keys_of(seq![tick]) =~= seq![p.tick as u64]);
                assert forall|c: u8| #[trigger] m2.contains_key(c) implies {
                    &&& m2[c].0.len() == m2[c].1.len()
                    &&& strictly_increasing(keys_of(m2[c].0))
                    &&& forall|i: int| 0 <= i < m2[c].0.len() ==> keys_of(m2[c].0)[i] <= upto
                    &&& m2[c].0.len() <= ccs.len()
                } by {
                    if c != c0 {
                        assert(m2[c] == m[c]);
                    }
                }
            }
        }
    }
}


/// The series of controller `c` in `m` holds the tick `tick` with the value `val`.
pub open spec fn has_point(m: Map<u8, (Seq<ClockTick>, Seq<u8>)>, c: u8, tick: u32, val: u8) -> bool {
    &&& m.contains_key(c)
    &&& exists|j: int|
        0 <= j < m[c].0.len() && j < m[c].1.len() && m[c].0[j] == ClockTick::from_ticks(tick) && m[c].1[j] == val
}

/// Every change of `ccs` is a point of its controller's series in `m`, at its
/// tick with its value, and every point of a series in `m` is one of the changes
/// of that controller.
pub open spec fn changes_are_points(ccs: Seq<ControlChange>, m: Map<u8, (Seq<ClockTick>, Seq<u8>)>) -> bool {
    &&& forall|i: int| 0 <= i < ccs.len() ==> has_point(m, (#[trigger] ccs[i]).control, ccs[i].tick, ccs[i].val)
    &&& forall|c: u8, j: int| m.contains_key(c) && 0 <= j < m[c].0.len() ==> #[trigger] is_change(ccs, m, c, j)
}

/// The point at place `j` of the series of controller `c` in `m` is one of the
/// changes of that controller in `ccs`.
pub open spec fn is_change(ccs: Seq<ControlChange>, m: Map<u8, (Seq<ClockTick>, Seq<u8>)>, c: u8, j: int) -> bool {
    exists|i: int|
        0 <= i < ccs.len() && (#[trigger] ccs[i]).control == c && m[c].0[j] == ClockTick::from_ticks(ccs[i].tick)
            && m[c].1[j] == ccs[i].val
}

/// A change appended to the series of a controller that has one keeps every
/// change a point.
proof fn lemma_points_appended(q: Seq<ControlChange>, p: ControlChange, m: Map<u8, (Seq<ClockTick>, Seq<u8>)>)
    requires
        changes_are_points(q, m),
        m.contains_key(p.control),
        m[p.control].0.len() == m[p.control].1.len(),
    ensures
        changes_are_points(
            q.push(p),
            m.insert(p.control, (m[p.control].0.push(ClockTick::from_ticks(p.tick)), m[p.control].1.push(p.val))),
        ),
{
    let c0 = p.control;
    let xs = m[c0].0;
    let ys = m[c0].1;
    let tick = ClockTick::from_ticks(p.tick);
    let ccs = q.push(p);
    let m2 = m.insert(c0, (xs.push(tick), ys.push(p.val)));
    let last = q.len() as int;
    assert forall|i: int| 0 <= i < ccs.len() implies has_point(m2, (#[trigger] ccs[i]).control, ccs[i].tick, ccs[i].val) by {
        if i == last {
            assert(m2[c0].0[xs.len() as int] == tick);
            assert(m2[c0].1[ys.len() as int] == p.val);
        } else {
            assert(ccs[i] == q[i]);
            assert(has_point(m, q[i].control, q[i].tick, q[i].val));
            let c = q[i].control;
            if c == c0 {
                let j = choose|j: int|
                    0 <= j < m[c].0.len() && j < m[c].1.len() && m[c].0[j] == ClockTick::from_ticks(q[i].tick) && m[c].1[j]
                        == q[i].val;
                assert(m2[c].0[j] == m[c].0[j]);
                assert(m2[c].1[j] == m[c].1[j]);
            } else {
                assert(m2[c] == m[c]);
            }
        }
    }
    assert forall|c: u8, j: int| m2.contains_key(c) && 0 <= j < m2[c].0.len() implies is_change(ccs, m2, c, j) by {
        if c == c0 && j == xs.len() {
            assert(ccs[last] == p);
            assert(ccs[last].control == c && m2[c].0[j] == ClockTick::from_ticks(ccs[last].tick) && m2[c].1[j]
                == ccs[last].val);
        } else {
            if c == c0 {
                assert(m2[c].0[j] == m[c].0[j]);
                assert(m2[c].1[j] == m[c].1[j]);
            } else {
                assert(m2[c] == m[c]);
            }
            assert(m.contains_key(c) && 0 <= j < m[c].0.len());
            assert(is_change(q, m, c, j));
            let i = choose|i: int|
                0 <= i < q.len() && (#[trigger] q[i]).control == c && m[c].0[j] == ClockTick::from_ticks(q[i].tick)
                    && m[c].1[j] == q[i].val;
            assert(ccs[i] == q[i]);
            assert(ccs[i].control == c && m2[c].0[j] == ClockTick::from_ticks(ccs[i].tick) && m2[c].1[j] == ccs[i].val);
        }
    }
}

/// A change that starts the series of its controller keeps every change a point.
proof fn lemma_points_started(q: Seq<ControlChange>, p: ControlChange, m: Map<u8, (Seq<ClockTick>, Seq<u8>)>)
    requires
        changes_are_points(q, m),
        !m.contains_key(p.control),
    ensures
        changes_are_points(q.push(p), m.insert(p.control, (seq![ClockTick::from_ticks(p.tick)], seq![p.val]))),
{
    let c0 = p.control;
    let tick = ClockTick::from_ticks(p.tick);
    let ccs = q.push(p);
    let m2 = m.insert(c0, (seq![tick], seq![p.val]));
    let last = q.len() as int;
    assert forall|i: int| 0 <= i < ccs.len() implies has_point(m2, (#[trigger] ccs[i]).control, ccs[i].tick, ccs[i].val) by {
        if i == last {
            assert(m2[c0].0[0] == tick);
        } else {
            assert(ccs[i] == q[i]);
            assert(has_point(m, q[i].control, q[i].tick, q[i].val));
            assert(m2[q[i].control] == m[q[i].control]);
        }
    }
    assert forall|c: u8, j: int| m2.contains_key(c) && 0 <= j < m2[c].0.len() implies is_change(ccs, m2, c, j) by {
        if c == c0 {
            assert(ccs[last] == p);
            assert(ccs[last].control == c && m2[c].0[j] == ClockTick::from_ticks(ccs[last].tick) && m2[c].1[j]
                == ccs[last].val);
        } else {
            assert(m2[c] == m[c]);
            assert(m.contains_key(c) && 0 <= j < m[c].0.len());
            assert(is_change(q, m, c, j));
            let i = choose|i: int|
                0 <= i < q.len() && (#[trigger] q[i]).control == c && m[c].0[j] == ClockTick::from_ticks(q[i].tick)
                    && m[c].1[j] == q[i].val;
            assert(ccs[i] == q[i]);
            assert(ccs[i].control == c && m2[c].0[j] == ClockTick::from_ticks(ccs[i].tick) && m2[c].1[j] == ccs[i].val);
        }
    }
}

/// Building the controller series from changes in tick order loses no change and
/// adds none: every change, a change to 0 as much as any other, is a point of its
/// controller's series at its tick with its value, and every point of a series is
/// one of the changes of that controller.
pub proof fn lemma_cc_series_points(ccs: Seq<ControlChange>)
    requires
        forall|i: int, j: int| 0 <= i < j < ccs.len() ==> ccs[i].tick <= ccs[j].tick,
        ccs.len() < usize::MAX,
        cc_series(ccs) is Some,
    ensures
        changes_are_points(ccs, cc_series(ccs)->Some_0),
    decreases ccs.len(),
{
    if ccs.len() > 0 {
        let q = ccs.drop_last();
        let p = ccs.last();
        assert forall|i: int, j: int| 0 <= i < j < q.len() implies q[i].tick <= q[j].tick by {
            assert(q[i] == ccs[i] && q[j] == ccs[j]);
        }
        assert(ordered(q, |e: ControlChange| e.tick, p.tick)) by {
            assert forall|i: int| 0 <= i < q.len() implies q[i].tick <= p.tick by {
                assert(q[i] == ccs[i]);
            }
        }
        let m = cc_series(q)->Some_0;
        lemma_cc_series_points(q);
        lemma_cc_series_bounded(q, p.tick);
        assert(ccs == q.push(p));
        let tick = ClockTick::from_ticks(p.tick);
        if m.contains_key(p.control) {
            assert(tick.key_view() == p.tick as u64) by {
                crate::time::lemma_from_ticks(p.tick);
            }
            lemma_push_at_end(m[p.control].0, m[p.control].1, tick, p.val);
            lemma_points_appended(q, p, m);
        } else {
            lemma_points_started(q, p, m);
        }
    }
}

} // verus!
