//! Notes, chords, the activation-vector encoding, and the event encoder.

use spectrum_reader::encoder::{decode, encode};
use spectrum_reader::fixed::SCALE;
use spectrum_reader::notes::{
    AddNoteResult, Chord, EncodingData, EncodingIndex, MIDIEncoding, Note, NoteEvent,
    ENCODING_LENGTH, KEY_RANGE,
};
use spectrum_reader::Fixed;

fn fx(x: f64) -> Fixed {
    Fixed::from_raw((x * (SCALE as f64)).round() as i64)
}

#[test]
fn note_accessors() {
    let note = Note::new(60, true);
    assert_eq!(note.get_key(), 60);
    assert!(note.is_note_on());
    let off = Note::new(60, false);
    assert!(!off.is_note_on());
    assert!(note != off);
}

#[test]
fn encoding_index_formulas() {
    assert_eq!(EncodingIndex::key_index(21), 1);
    assert_eq!(EncodingIndex::key_index(22), 3);
    assert_eq!(EncodingIndex::key_index(108), 175);
    assert_eq!(EncodingIndex::on_off_index(21), 0);
    assert_eq!(EncodingIndex::on_off_index(108), 174);
    assert_eq!(EncodingIndex::key_of(1), 21);
    assert_eq!(EncodingIndex::key_of(175), 108);
    for key in 21..=108u8 {
        assert_eq!(EncodingIndex::key_of(EncodingIndex::key_index(key)), key);
        assert_eq!(EncodingIndex::key_index(key), EncodingIndex::on_off_index(key) + 1);
    }
    let range = EncodingIndex::key_range();
    assert_eq!(range.start, 1);
    assert_eq!(range.end, KEY_RANGE);
    assert_eq!(EncodingIndex::time_delta_index(), 176);
    assert_eq!(EncodingIndex::start_index(), 177);
    assert_eq!(EncodingIndex::end_index(), 178);
}

#[test]
fn chord_try_add_rejects_duplicates() {
    let mut chord = Chord::none();
    assert!(chord.is_none());
    let outcome = chord.try_add(Note::new(60, true), fx(125.0));
    assert!(matches!(outcome, AddNoteResult::Added));
    assert!(!chord.is_none());
    let outcome = chord.try_add(Note::new(60, true), fx(999.0));
    assert!(matches!(outcome, AddNoteResult::Duplicate));
    let outcome = chord.try_add(Note::new(60, false), fx(999.0));
    assert!(matches!(outcome, AddNoteResult::Added));
    assert_eq!(chord.get_notes().len(), 2);
}

#[test]
fn chord_encoding_round_trip() {
    let mut chord = Chord::none();
    chord.try_add(Note::new(21, true), fx(40.0));
    chord.try_add(Note::new(108, false), fx(0.0));

    let encoding = chord.get_encoding();
    assert_eq!(encoding.len(), ENCODING_LENGTH);
    assert_eq!(encoding[EncodingIndex::key_index(21)], Fixed::one());
    assert_eq!(encoding[EncodingIndex::on_off_index(21)], Fixed::one());
    assert_eq!(encoding[EncodingIndex::key_index(108)], Fixed::one());
    assert_eq!(encoding[EncodingIndex::on_off_index(108)], Fixed::zero());
    assert_eq!(encoding[EncodingIndex::key_index(60)], Fixed::zero());
    assert_eq!(encoding[EncodingIndex::time_delta_index()], fx(40.0));

    let decoded = Chord::from_vec(&encoding, fx(0.5));
    let notes = decoded.get_notes();
    assert_eq!(notes, vec![Note::new(21, true), Note::new(108, false)]);
}

#[test]
fn chord_from_vec_applies_cutoff() {
    let mut v = vec![fx(0.0); ENCODING_LENGTH];
    v[EncodingIndex::key_index(30)] = fx(0.8);
    v[EncodingIndex::on_off_index(30)] = fx(0.6);
    v[EncodingIndex::key_index(31)] = fx(0.4);
    v[EncodingIndex::time_delta_index()] = fx(10.0);

    let chord = Chord::from_vec(&v, fx(0.5));
    let notes = chord.get_notes();
    assert_eq!(notes, vec![Note::new(30, true)]);

    let strict = Chord::from_vec(&v, fx(0.9));
    assert!(strict.is_none());
}

#[test]
fn midi_encoding_from_vector_decodes_each_timestep() {
    let mut v1 = vec![fx(0.0); ENCODING_LENGTH];
    v1[EncodingIndex::key_index(40)] = fx(1.0);
    v1[EncodingIndex::on_off_index(40)] = fx(1.0);
    let v2 = vec![fx(0.0); ENCODING_LENGTH];

    let encoding = MIDIEncoding::from_vector(vec![v1, v2], fx(0.5));
    assert_eq!(encoding.len(), 2);
    assert!(!encoding.get_encoding()[0].is_none());
    assert!(encoding.get_encoding()[1].is_none());
}

#[test]
fn encode_groups_simultaneous_events() {
    // Three events: two share the second timestep.
    let events = vec![
        NoteEvent::new(fx(100.0), 60, true),
        NoteEvent::new(fx(50.0), 64, true),
        NoteEvent::new(fx(0.0), 67, true),
    ];
    let data = EncodingData::new(events);
    let midi = encode(data);
    let chords = midi.get_encoding();

    // start marker, chord {60}, chord {64, 67}, end marker
    assert_eq!(chords.len(), 4);
    assert!(chords[0].is_none());
    assert_eq!(chords[1].get_notes(), vec![Note::new(60, true)]);
    assert_eq!(chords[2].get_notes(), vec![Note::new(64, true), Note::new(67, true)]);
    assert!(chords[3].is_none());
}

#[test]
fn encode_respects_time_limit() {
    let events = vec![
        NoteEvent::new(fx(100.0), 60, true),
        NoteEvent::new(fx(100.0), 64, true),
        NoteEvent::new(fx(100.0), 67, true),
    ];
    let data = EncodingData::with_limit(events, 150);
    let midi = encode(data);
    let chords = midi.get_encoding();

    // start marker, chord {60}, the cut-off current chord, end marker;
    // the events at 200ms and 300ms never arrive.
    let mut seen: Vec<Vec<Note>> = Vec::new();
    for c in chords.iter() {
        if !c.is_none() {
            seen.push(c.get_notes());
        }
    }
    assert_eq!(seen, vec![vec![Note::new(60, true)]]);
}

#[test]
fn encode_then_decode_returns_the_events() {
    // One note per timestep: decoding hands every note its chord's time
    // delta, so the very events that went in come back out.
    let events = vec![
        NoteEvent::new(fx(100.0), 60, true),
        NoteEvent::new(fx(50.0), 60, false),
        NoteEvent::new(fx(25.0), 64, true),
        NoteEvent::new(fx(125.0), 64, false),
    ];
    let data = EncodingData::new(events.clone());
    let midi = encode(data);
    let decoded = decode(midi);
    assert_eq!(decoded, events);
}
