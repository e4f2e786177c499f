//! The note/chord encoding types the engine's callers exchange with it:
//! piano keys with on/off state, chords of simultaneous note events, and
//! the fixed-width 0/1 activation vectors they encode to and decode from,
//! gated by a caller-supplied cutoff threshold.

use vstd::prelude::*;

verus! {

use crate::fixed::{Fixed, SCALE};
use crate::params::vals;

/// Width of a note-activation vector: two positions per piano key, plus
/// the extra variables.
pub const ENCODING_LENGTH: usize = 88 * 2 + NON_KEY_VARS;

/// The positions holding key data.
pub const KEY_RANGE: usize = 88 * 2;

/// The extra positions: time delta, start marker, end marker.
pub const NON_KEY_VARS: usize = 3;

/// Offset of the time-delta position after the key range.
pub const TIME_DELTA_INDEX: usize = 0;

/// Offset of the start-marker position after the key range.
pub const START_INDEX: usize = 1;

/// Offset of the end-marker position after the key range.
pub const END_INDEX: usize = 2;

/// One piano key with its on/off state.
#[derive(Debug, Clone, Copy, PartialEq, Eq, Structural, PartialOrd, Ord)]
pub struct Note {
    pub key: u8,
    pub on: bool,
}

impl Note {
    /// The note for the given key and state.
    pub fn new(key: u8, on: bool) -> (r: Note)
        ensures
            r.key == key,
            r.on == on,
    {
        Note { key, on }
    }

    /// The piano key.
    pub fn get_key(&self) -> (r: u8)
        ensures
            r == self.key,
    {
        self.key
    }

    /// Whether the note starts (rather than ends) here.
    pub fn is_note_on(&self) -> (r: bool)
        ensures
            r == self.on,
    {
        self.on
    }
}

/// A note together with the time since the previous event.
#[derive(Debug, Clone, Copy, PartialEq, Eq, Structural)]
pub struct NoteEvent {
    pub time_delta_ms: Fixed,
    pub note: Note,
}

impl NoteEvent {
    /// An event for the given key and state, after the given delay.
    pub fn new(time_delta_ms: Fixed, key: u8, note_on: bool) -> (r: NoteEvent)
        ensures
            r.time_delta_ms == time_delta_ms,
            r.note == (Note { key, on: note_on }),
    {
        NoteEvent { time_delta_ms, note: Note::new(key, note_on) }
    }

    /// The time since the previous event, in milliseconds.
    pub fn get_time_delta(&self) -> (r: Fixed)
        ensures
            r == self.time_delta_ms,
    {
        self.time_delta_ms
    }

    /// The note, borrowed.
    pub fn get_note_ref(&self) -> (r: &Note)
        ensures
            r == self.note,
    {
        &self.note
    }

    /// The note.
    pub fn get_note(self) -> (r: Note)
        ensures
            r == self.note,
    {
        self.note
    }
}

/// The lowest encodable piano key.
pub const FIRST_KEY: u8 = 21;

/// The highest encodable piano key.
pub const LAST_KEY: u8 = 108;

/// The fixed positions of the note-activation encoding.
///
/// Each key `k` owns two adjacent positions: an even on/off position and
/// the odd note-identity position right after it.
pub struct EncodingIndex;

impl EncodingIndex {
    /// The note-identity position of a key.
    pub fn key_index(key: u8) -> (r: usize)
        requires
            FIRST_KEY <= key <= LAST_KEY,
        ensures
            r == 2 * (key - FIRST_KEY) + 1,
            r < KEY_RANGE,
    {
        (2 * ((key - 21) as usize) + 1) as usize
    }

    /// The key owning a position inside the key range.
    pub fn key_of(index: usize) -> (r: u8)
        requires
            1 <= index < KEY_RANGE,
        ensures
            r == (index - 1) / 2 + FIRST_KEY,
            FIRST_KEY <= r <= LAST_KEY,
    {
        (((index - 1) / 2 + 21) as u8)
    }

    /// The on/off position of a key.
    pub fn on_off_index(key: u8) -> (r: usize)
        requires
            FIRST_KEY <= key <= LAST_KEY,
        ensures
            r == 2 * (key - FIRST_KEY),
            r < KEY_RANGE,
    {
        (2 * ((key - 21) as usize)) as usize
    }

    /// The note-identity positions: every odd position of the key range.
    pub fn key_range() -> (r: core::ops::Range<usize>)
        ensures
            r.start == 1,
            r.end == KEY_RANGE,
    {
        1..KEY_RANGE
    }

    /// The position of the time delta.
    pub fn time_delta_index() -> (r: usize)
        ensures
            r == KEY_RANGE + TIME_DELTA_INDEX,
    {
        KEY_RANGE + TIME_DELTA_INDEX
    }

    /// The position of the start marker.
    pub fn start_index() -> (r: usize)
        ensures
            r == KEY_RANGE + START_INDEX,
    {
        KEY_RANGE + START_INDEX
    }

    /// The position of the end marker.
    pub fn end_index() -> (r: usize)
        ensures
            r == KEY_RANGE + END_INDEX,
    {
        KEY_RANGE + END_INDEX
    }
}

/// What kind of event a chord slot holds.
#[derive(Debug, Clone, Copy, PartialEq, Eq, Structural)]
pub enum ChordType {
    /// Real simultaneous notes.
    Chord,
    /// The start marker.
    Start,
    /// The end marker.
    End,
    /// An empty slot.
    Empty,
}

/// The outcome of adding a note to a chord.
#[derive(Debug, Clone, Copy, PartialEq, Eq, Structural)]
pub enum AddNoteResult {
    /// The note was added.
    Added,
    /// The chord already held this exact event; nothing changed.
    Duplicate,
}

/// The mathematical content of a chord.
pub ghost struct ChordV {
    pub notes: Seq<Note>,
    pub is_none: bool,
    pub time_delta: int,
    pub chord_type: ChordType,
}

/// A chord whose notes are all encodable keys.
pub open spec fn wf_chord(c: ChordV) -> bool {
    forall|j: int|
        0 <= j < c.notes.len() ==> FIRST_KEY <= (#[trigger] c.notes[j]).key <= LAST_KEY
}

/// Whether some note in the list is for the given key.
pub open spec fn has_key(notes: Seq<Note>, key: u8) -> bool {
    exists|j: int| 0 <= j < notes.len() && (#[trigger] notes[j]).key == key
}

/// Whether some note in the list starts the given key.
pub open spec fn has_key_on(notes: Seq<Note>, key: u8) -> bool {
    exists|j: int| 0 <= j < notes.len() && (#[trigger] notes[j]).key == key && notes[j].on
}

/// Whether the list holds this exact event.
pub open spec fn has_event(notes: Seq<Note>, note: Note) -> bool {
    exists|j: int|
        0 <= j < notes.len() && (#[trigger] notes[j]).key == note.key && notes[j].on == note.on
}

/// The note-activation vector of a note list and time delta: one at each
/// held key's identity position, one at each started key's on/off
/// position, the time delta in its slot, zero elsewhere.
pub open spec fn chord_encoding(notes: Seq<Note>, time_delta: int) -> Seq<int> {
    Seq::new(
        ENCODING_LENGTH as nat,
        |i: int|
            if i == KEY_RANGE as int {
                time_delta
            } else if i > KEY_RANGE as int {
                0
            } else if i % 2 == 1 {
                if has_key(notes, ((i - 1) / 2 + FIRST_KEY as int) as u8) {
                    SCALE as int
                } else {
                    0
                }
            } else {
                if has_key_on(notes, (i / 2 + FIRST_KEY as int) as u8) {
                    SCALE as int
                } else {
                    0
                }
            },
    )
}

/// The notes a vector decodes to under a cutoff, for keys from slot `k`
/// up: a note for each key whose identity value reaches the cutoff, on
/// when its on/off value does too, in ascending key order.
pub open spec fn decoded_notes(v: Seq<int>, cutoff: int, k: int) -> Seq<Note>
    decreases 88 - k,
{
    if k < 0 || k >= 88 {
        Seq::empty()
    } else {
        let head: Seq<Note> = if v[2 * k + 1] >= cutoff {
            seq![Note { key: (k + FIRST_KEY as int) as u8, on: v[2 * k] >= cutoff }]
        } else {
            Seq::empty()
        };
        head + decoded_notes(v, cutoff, k + 1)
    }
}

/// The chord a note-activation vector decodes to under a cutoff: a real
/// chord of the decoded notes carrying the vector's time delta, or the
/// empty slot when no key reaches the cutoff.
pub open spec fn decoded_chord(v: Seq<int>, cutoff: int) -> ChordV {
    let notes = decoded_notes(v, cutoff, 0);
    if notes.len() == 0 {
        ChordV {
            notes: Seq::empty(),
            is_none: true,
            time_delta: 0,
            chord_type: ChordType::Empty,
        }
    } else {
        ChordV {
            notes,
            is_none: false,
            time_delta: v[KEY_RANGE as int],
            chord_type: ChordType::Chord,
        }
    }
}

/// Simultaneous note events sharing one time delta.
pub struct Chord {
    notes: Vec<Note>,
    is_none: bool,
    time_delta: Fixed,
    chord_type: ChordType,
}

impl View for Chord {
    type V = ChordV;

    closed spec fn view(&self) -> ChordV {
        ChordV {
            notes: self.notes@,
            is_none: self.is_none,
            time_delta: self.time_delta@,
            chord_type: self.chord_type,
        }
    }
}

impl Chord {
    /// A chord of one event.
    pub fn new(note: NoteEvent, time_delta: Fixed) -> (r: Chord)
        ensures
            r@ == (ChordV {
                notes: seq![note.note],
                is_none: false,
                time_delta: time_delta@,
                chord_type: ChordType::Chord,
            }),
    {
        let mut notes: Vec<Note> = Vec::new();
        notes.push(note.get_note());
        let r = Chord { notes, is_none: false, time_delta, chord_type: ChordType::Chord };
        proof {
            assert(r@.notes =~= seq![note.note]);
        }
        r
    }

    /// The empty slot.
    pub fn none() -> (r: Chord)
        ensures
            r@ == (ChordV {
                notes: Seq::empty(),
                is_none: true,
                time_delta: 0,
                chord_type: ChordType::Empty,
            }),
    {
        let r = Chord {
            notes: Vec::new(),
            is_none: true,
            time_delta: Fixed::zero(),
            chord_type: ChordType::Empty,
        };
        proof {
            assert(r@.notes =~= Seq::<Note>::empty());
        }
        r
    }

    /// The start marker.
    pub fn start() -> (r: Chord)
        ensures
            r@ == (ChordV {
                notes: Seq::empty(),
                is_none: true,
                time_delta: 0,
                chord_type: ChordType::Start,
            }),
    {
        let r = Chord {
            notes: Vec::new(),
            is_none: true,
            time_delta: Fixed::zero(),
            chord_type: ChordType::Start,
        };
        proof {
            assert(r@.notes =~= Seq::<Note>::empty());
        }
        r
    }

    /// The end marker.
    pub fn end() -> (r: Chord)
        ensures
            r@ == (ChordV {
                notes: Seq::empty(),
                is_none: true,
                time_delta: 0,
                chord_type: ChordType::End,
            }),
    {
        let r = Chord {
            notes: Vec::new(),
            is_none: true,
            time_delta: Fixed::zero(),
            chord_type: ChordType::End,
        };
        proof {
            assert(r@.notes =~= Seq::<Note>::empty());
        }
        r
    }

    /// Decode a note-activation vector under a cutoff: one note per key
    /// whose identity value reaches the cutoff; the empty slot when no key
    /// does.
    pub fn from_vec(v: &Vec<Fixed>, cutoff: Fixed) -> (r: Chord)
        requires
            v@.len() == ENCODING_LENGTH,
        ensures
            r@ == decoded_chord(vals(v@), cutoff@),
    {
        let ghost vv = vals(v@);
        let time_delta: Fixed = v[KEY_RANGE + TIME_DELTA_INDEX];
        proof {
            assert(vv[KEY_RANGE as int] == v@[KEY_RANGE as int]@);
            assert(decoded_notes(vv, cutoff@, 88) =~= Seq::<Note>::empty());
        }
        let mut notes: Vec<Note> = Vec::new();
        let mut k: usize = 0;
        while k < 88
            invariant
                0 <= k <= 88,
                v@.len() == ENCODING_LENGTH,
                vv == vals(v@),
                notes@ + decoded_notes(vv, cutoff@, k as int) == decoded_notes(vv, cutoff@, 0),
            decreases 88 - k,
        {
            proof {
                assert(vv[2 * (k as int) + 1] == v@[2 * (k as int) + 1]@);
                assert(vv[2 * (k as int)] == v@[2 * (k as int)]@);
            }
            if v[2 * k + 1].ge(cutoff) {
                let key: u8 = ((k + 21) as u8);
                let note = Note::new(key, v[2 * k].ge(cutoff));
                proof {
                    assert(decoded_notes(vv, cutoff@, k as int) == seq![note] + decoded_notes(
                        vv,
                        cutoff@,
                        k + 1,
                    ));
                    assert((notes@ + seq![note]) + decoded_notes(vv, cutoff@, k + 1) =~= notes@
                        + decoded_notes(vv, cutoff@, k as int));
                }
                notes.push(note);
            } else {
                proof {
                    assert(decoded_notes(vv, cutoff@, k as int) =~= decoded_notes(
                        vv,
                        cutoff@,
                        k + 1,
                    ));
                }
            }
            k = k + 1;
        }
        proof {
            assert(notes@ =~= decoded_notes(vv, cutoff@, 0));
        }
        if notes.len() == 0 {
            let r = Chord::none();
            proof {
                assert(decoded_notes(vv, cutoff@, 0) =~= Seq::<Note>::empty());
            }
            r
        } else {
            let r = Chord { notes, is_none: false, time_delta, chord_type: ChordType::Chord };
            r
        }
    }

    /// Empty the chord back into an empty slot; the time delta is kept, as
    /// the encoder overwrites it on the next add.
    pub fn reset(&mut self)
        ensures
            final(self)@ == (ChordV {
                notes: Seq::<Note>::empty(),
                is_none: true,
                time_delta: old(self)@.time_delta,
                chord_type: old(self)@.chord_type,
            }),
    {
        self.is_none = true;
        self.notes.clear();
        proof {
            assert(final(self)@.notes =~= Seq::<Note>::empty());
        }
    }

    /// Whether this is an empty slot.
    pub fn is_none(&self) -> (r: bool)
        ensures
            r == self@.is_none,
    {
        self.is_none
    }

    /// An owned copy of the chord.
    pub fn snapshot(&self) -> (r: Chord)
        ensures
            r@ == self@,
    {
        let n = self.notes.len();
        let mut notes: Vec<Note> = Vec::new();
        let mut j: usize = 0;
        while j < n
            invariant
                0 <= j <= n,
                n == self.notes@.len(),
                notes@.len() == j,
                forall|i: int| 0 <= i < j ==> #[trigger] notes@[i] == self.notes@[i],
            decreases n - j,
        {
            notes.push(self.notes[j]);
            j = j + 1;
        }
        proof {
            assert(notes@ =~= self.notes@);
        }
        Chord {
            notes,
            is_none: self.is_none,
            time_delta: self.time_delta,
            chord_type: self.chord_type,
        }
    }

    /// Add a note unless the chord already holds this exact event. Adding
    /// to an empty slot makes it a real chord and takes the time delta.
    pub fn try_add(&mut self, note: Note, time_delta: Fixed) -> (r: AddNoteResult)
        ensures
            has_event(old(self)@.notes, note) ==> r == AddNoteResult::Duplicate && final(self)@
                == old(self)@,
            !has_event(old(self)@.notes, note) ==> r == AddNoteResult::Added && final(self)@
                == (ChordV {
                notes: old(self)@.notes.push(note),
                is_none: false,
                time_delta: if old(self)@.is_none {
                    time_delta@
                } else {
                    old(self)@.time_delta
                },
                chord_type: if old(self)@.is_none {
                    ChordType::Chord
                } else {
                    old(self)@.chord_type
                },
            }),
    {
        let mut same_event: bool = false;
        let n = self.notes.len();
        let mut j: usize = 0;
        while j < n
            invariant
                0 <= j <= n,
                n == self.notes@.len(),
                self == old(self),
                same_event == exists|i: int|
                    0 <= i < j && (#[trigger] self.notes@[i]).key == note.key && self.notes@[i].on
                        == note.on,
            decreases n - j,
        {
            let cand = self.notes[j];
            if cand.get_key() == note.get_key() && cand.is_note_on() == note.is_note_on() {
                same_event = true;
            }
            j = j + 1;
        }

        if same_event {
            AddNoteResult::Duplicate
        } else {
            if self.is_none {
                self.time_delta = time_delta;
                self.is_none = false;
                self.chord_type = ChordType::Chord;
            }
            self.notes.push(note);
            AddNoteResult::Added
        }
    }

    /// One event per note, each carrying the chord's time delta.
    pub fn get_events(&self) -> (r: Vec<NoteEvent>)
        ensures
            r@.len() == self@.notes.len(),
            forall|j: int|
                0 <= j < r@.len() ==> (#[trigger] r@[j]).time_delta_ms@ == self@.time_delta
                    && r@[j].note == self@.notes[j],
    {
        let n = self.notes.len();
        let mut events: Vec<NoteEvent> = Vec::new();
        let mut j: usize = 0;
        while j < n
            invariant
                0 <= j <= n,
                n == self.notes@.len(),
                events@.len() == j,
                forall|i: int|
                    0 <= i < j ==> #[trigger] events@[i] == (NoteEvent {
                        time_delta_ms: self.time_delta,
                        note: self.notes@[i],
                    }),
            decreases n - j,
        {
            let note = self.notes[j];
            events.push(NoteEvent::new(self.time_delta, note.get_key(), note.is_note_on()));
            j = j + 1;
        }
        events
    }

    /// Encode the chord as a note-activation vector.
    pub fn get_encoding(&self) -> (r: Vec<Fixed>)
        requires
            wf_chord(self@),
        ensures
            vals(r@) == chord_encoding(self@.notes, self@.time_delta),
            r@.len() == ENCODING_LENGTH,
    {
        let mut out: Vec<Fixed> = Vec::new();
        let mut i: usize = 0;
        while i < ENCODING_LENGTH
            invariant
                0 <= i <= ENCODING_LENGTH,
                wf_chord(self@),
                out@.len() == i,
                forall|j: int|
                    0 <= j < i ==> (#[trigger] out@[j])@ == chord_encoding(
                        self@.notes,
                        self@.time_delta,
                    )[j],
            decreases ENCODING_LENGTH - i,
        {
            let x: Fixed;
            if i == KEY_RANGE {
                x = self.time_delta;
            } else if i > KEY_RANGE {
                x = Fixed::zero();
            } else if i % 2 == 1 {
                let key: u8 = (((i - 1) / 2 + 21) as u8);
                x = if self.holds_key(key) {
                    Fixed::one()
                } else {
                    Fixed::zero()
                };
            } else {
                let key: u8 = ((i / 2 + 21) as u8);
                x = if self.holds_key_on(key) {
                    Fixed::one()
                } else {
                    Fixed::zero()
                };
            }
            out.push(x);
            i = i + 1;
        }
        proof {
            assert(vals(out@) =~= chord_encoding(self@.notes, self@.time_delta));
        }
        out
    }

    /// Whether the chord holds a note for the given key.
    fn holds_key(&self, key: u8) -> (r: bool)
        ensures
            r == has_key(self@.notes, key),
    {
        let n = self.notes.len();
        let mut j: usize = 0;
        while j < n
            invariant
                0 <= j <= n,
                n == self.notes@.len(),
                forall|i: int| 0 <= i < j ==> (#[trigger] self.notes@[i]).key != key,
            decreases n - j,
        {
            if self.notes[j].get_key() == key {
                return true;
            }
            j = j + 1;
        }
        false
    }

    /// Whether the chord starts a note for the given key.
    fn holds_key_on(&self, key: u8) -> (r: bool)
        ensures
            r == has_key_on(self@.notes, key),
    {
        let n = self.notes.len();
        let mut j: usize = 0;
        while j < n
            invariant
                0 <= j <= n,
                n == self.notes@.len(),
                forall|i: int|
                    0 <= i < j ==> !((#[trigger] self.notes@[i]).key == key && self.notes@[i].on),
            decreases n - j,
        {
            let cand = self.notes[j];
            if cand.get_key() == key && cand.is_note_on() {
                return true;
            }
            j = j + 1;
        }
        false
    }

    /// The notes, owned.
    pub fn get_notes(&self) -> (r: Vec<Note>)
        ensures
            r@ == self@.notes,
    {
        let n = self.notes.len();
        let mut notes: Vec<Note> = Vec::new();
        let mut j: usize = 0;
        while j < n
            invariant
                0 <= j <= n,
                n == self.notes@.len(),
                notes@.len() == j,
                forall|i: int| 0 <= i < j ==> #[trigger] notes@[i] == self.notes@[i],
            decreases n - j,
        {
            notes.push(self.notes[j]);
            j = j + 1;
        }
        proof {
            assert(notes@ =~= self.notes@);
        }
        notes
    }
}

/// A whole piece as a sequence of chords.
pub struct MIDIEncoding {
    encoding: Vec<Chord>,
}

/// The mathematical content of a sequence of chords.
pub open spec fn chords_view(s: Seq<Chord>) -> Seq<ChordV> {
    s.map_values(|c: Chord| c@)
}

impl View for MIDIEncoding {
    type V = Seq<ChordV>;

    closed spec fn view(&self) -> Seq<ChordV> {
        chords_view(self.encoding@)
    }
}

impl MIDIEncoding {
    /// An encoding of the given chords.
    pub fn new(encoding: Vec<Chord>) -> (r: MIDIEncoding)
        ensures
            r@ == chords_view(encoding@),
    {
        MIDIEncoding { encoding }
    }

    /// Decode a sequence of note-activation vectors under a cutoff, one
    /// chord per timestep.
    pub fn from_vector(output_vecs: Vec<Vec<Fixed>>, cutoff: Fixed) -> (r: MIDIEncoding)
        requires
            forall|t: int|
                0 <= t < output_vecs@.len() ==> (#[trigger] output_vecs@[t])@.len()
                    == ENCODING_LENGTH,
        ensures
            r@.len() == output_vecs@.len(),
            forall|t: int|
                0 <= t < r@.len() ==> #[trigger] r@[t] == decoded_chord(
                    vals(output_vecs@[t]@),
                    cutoff@,
                ),
    {
        let n = output_vecs.len();
        let mut chords: Vec<Chord> = Vec::new();
        let mut t: usize = 0;
        while t < n
            invariant
                0 <= t <= n,
                n == output_vecs@.len(),
                forall|j: int|
                    0 <= j < n ==> (#[trigger] output_vecs@[j])@.len() == ENCODING_LENGTH,
                chords@.len() == t,
                forall|j: int|
                    0 <= j < t ==> (#[trigger] chords@[j])@ == decoded_chord(
                        vals(output_vecs@[j]@),
                        cutoff@,
                    ),
            decreases n - t,
        {
            let chord = Chord::from_vec(&output_vecs[t], cutoff);
            chords.push(chord);
            t = t + 1;
        }
        let r = MIDIEncoding { encoding: chords };
        proof {
            assert(forall|j: int| 0 <= j < r@.len() ==> #[trigger] r@[j] == chords@[j]@);
        }
        r
    }

    /// The chords, borrowed.
    pub fn get_encoding(&self) -> (r: &Vec<Chord>)
        ensures
            chords_view(r@) == self@,
    {
        &self.encoding
    }

    /// The number of chord slots.
    pub fn len(&self) -> (r: usize)
        ensures
            r as int == self@.len(),
    {
        self.encoding.len()
    }
}

/// The input to the encoder: note events, with an optional time limit.
pub struct EncodingData {
    pub events: Vec<NoteEvent>,
    pub has_limit: bool,
    pub time_limit_ms: usize,
}

impl EncodingData {
    /// Unlimited encoding input.
    pub fn new(events: Vec<NoteEvent>) -> (r: EncodingData)
        ensures
            r.events@ == events@,
            !r.has_limit,
            r.time_limit_ms == 0,
    {
        EncodingData { events, has_limit: false, time_limit_ms: 0 }
    }

    /// Encoding input cut off after the given time.
    pub fn with_limit(events: Vec<NoteEvent>, limit_ms: usize) -> (r: EncodingData)
        ensures
            r.events@ == events@,
            r.has_limit,
            r.time_limit_ms == limit_ms,
    {
        EncodingData { events, has_limit: true, time_limit_ms: limit_ms }
    }

    /// The events, owned.
    pub fn get_events(&self) -> (r: Vec<NoteEvent>)
        ensures
            r@ == self.events@,
    {
        let n = self.events.len();
        let mut events: Vec<NoteEvent> = Vec::new();
        let mut j: usize = 0;
        while j < n
            invariant
                0 <= j <= n,
                n == self.events@.len(),
                events@.len() == j,
                forall|i: int| 0 <= i < j ==> #[trigger] events@[i] == self.events@[i],
            decreases n - j,
        {
            events.push(self.events[j]);
            j = j + 1;
        }
        proof {
            assert(events@ =~= self.events@);
        }
        events
    }

    /// Whether a timestep at the given time still falls inside the limit.
    pub fn continue_sampling(&self, timestep_ms: u32) -> (r: bool)
        ensures
            r == (!self.has_limit || timestep_ms as int <= self.time_limit_ms as int),
    {
        if self.has_limit {
            (timestep_ms as usize) <= self.time_limit_ms
        } else {
            true
        }
    }

    /// The time limit in milliseconds; zero when there is none.
    pub fn time_limit_ms(&self) -> (r: usize)
        ensures
            r == self.time_limit_ms,
    {
        self.time_limit_ms
    }
}

} // verus!
