//! Encoding note events into chords and back: events that arrive with no
//! time delta join the current chord; a nonzero delta closes it and opens
//! the next; an optional time limit cuts the stream off.

use vstd::prelude::*;

verus! {

use crate::fixed::{Fixed, fx_add, ceil_units, clamp_u32};
use crate::notes::{
    Note, NoteEvent, Chord, ChordV, ChordType, MIDIEncoding, EncodingData, has_event, chords_view,
};

/// The chord after one note is offered to it: unchanged on an exact
/// duplicate, else extended; an empty slot comes alive and takes the time
/// delta.
pub open spec fn chord_after_add(c: ChordV, note: Note, td: int) -> ChordV {
    if has_event(c.notes, note) {
        c
    } else {
        ChordV {
            notes: c.notes.push(note),
            is_none: false,
            time_delta: if c.is_none {
                td
            } else {
                c.time_delta
            },
            chord_type: if c.is_none {
                ChordType::Chord
            } else {
                c.chord_type
            },
        }
    }
}

/// The encoder's running state: finished chords, the chord being built,
/// the accumulated time, and whether the time limit has cut the stream.
pub ghost struct EncoderState {
    pub done: Seq<ChordV>,
    pub cur: ChordV,
    pub time: int,
    pub stopped: bool,
}

/// The state every encoding starts from: a start marker, an empty current
/// chord, time zero.
pub open spec fn encode_start() -> EncoderState {
    EncoderState {
        done: seq![
            ChordV {
                notes: Seq::empty(),
                is_none: true,
                time_delta: 0,
                chord_type: ChordType::Start,
            },
        ],
        cur: ChordV {
            notes: Seq::empty(),
            is_none: true,
            time_delta: 0,
            chord_type: ChordType::Empty,
        },
        time: 0,
        stopped: false,
    }
}

/// Whether the time limit cuts the stream at this event.
pub open spec fn encode_stops(s: EncoderState, e: NoteEvent, has_limit: bool, limit: int) -> bool {
    has_limit && clamp_u32(ceil_units(fx_add(s.time, e.time_delta_ms@))) > limit
}

/// One event folded into the encoder's state: a zero delta joins the
/// current chord; a nonzero delta closes a non-empty current chord and
/// starts the next one.
pub open spec fn encode_step(s: EncoderState, e: NoteEvent) -> EncoderState {
    let time2 = fx_add(s.time, e.time_delta_ms@);
    if e.time_delta_ms@ == 0 {
        EncoderState {
            done: s.done,
            cur: chord_after_add(s.cur, e.note, e.time_delta_ms@),
            time: time2,
            stopped: false,
        }
    } else {
        let done2 = if !s.cur.is_none {
            s.done.push(s.cur)
        } else {
            s.done
        };
        let reset = ChordV {
            notes: Seq::empty(),
            is_none: true,
            time_delta: s.cur.time_delta,
            chord_type: s.cur.chord_type,
        };
        EncoderState {
            done: done2,
            cur: chord_after_add(reset, e.note, e.time_delta_ms@),
            time: time2,
            stopped: false,
        }
    }
}

/// The encoder's state after the first `k` events; once the time limit
/// strikes, the state freezes.
pub open spec fn encode_fold(
    events: Seq<NoteEvent>,
    has_limit: bool,
    limit: int,
    k: int,
) -> EncoderState
    decreases k,
{
    if k <= 0 {
        encode_start()
    } else {
        let s = encode_fold(events, has_limit, limit, k - 1);
        if s.stopped {
            s
        } else if encode_stops(s, events[k - 1], has_limit, limit) {
            EncoderState { done: s.done, cur: s.cur, time: s.time, stopped: true }
        } else {
            encode_step(s, events[k - 1])
        }
    }
}

/// The chords an event stream encodes to: the folded chords, the chord
/// still open when the stream ends, and the end marker.
pub open spec fn encode_result(events: Seq<NoteEvent>, has_limit: bool, limit: int) -> Seq<ChordV> {
    let s = encode_fold(events, has_limit, limit, events.len() as int);
    s.done.push(s.cur).push(
        ChordV { notes: Seq::empty(), is_none: true, time_delta: 0, chord_type: ChordType::End },
    )
}

/// Once the limit has struck, further events change nothing.
proof fn lemma_fold_frozen(events: Seq<NoteEvent>, has_limit: bool, limit: int, t0: int, k: int)
    requires
        0 <= t0 <= k,
        encode_fold(events, has_limit, limit, t0).stopped,
    ensures
        encode_fold(events, has_limit, limit, k) == encode_fold(events, has_limit, limit, t0),
    decreases k - t0,
{
    if k > t0 {
        lemma_fold_frozen(events, has_limit, limit, t0, k - 1);
    }
}

/// Encode an event stream into chords: events sharing a timestep form one
/// chord, duplicates within a chord are dropped, and the optional time
/// limit cuts the stream off.
pub fn encode(data: EncodingData) -> (r: MIDIEncoding)
    ensures
        r@ == encode_result(data.events@, data.has_limit, data.time_limit_ms as int),
{
    let ghost events_v = data.events@;
    let ghost hl = data.has_limit;
    let ghost lim = data.time_limit_ms as int;
    let events: Vec<NoteEvent> = data.get_events();

    let mut time = Fixed::zero();
    let mut encoding: Vec<Chord> = Vec::new();
    encoding.push(Chord::start());
    let mut chord: Chord = Chord::none();

    let n = events.len();
    let mut t: usize = 0;
    let mut stopped: bool = false;
    proof {
        assert(chords_view(encoding@) =~= encode_start().done);
    }
    while t < n && !stopped
        invariant
            0 <= t <= n,
            n == events@.len(),
            events@ == events_v,
            data.has_limit == hl,
            data.time_limit_ms as int == lim,
            !stopped ==> {
                &&& encode_fold(events_v, hl, lim, t as int) == (EncoderState {
                    done: chords_view(encoding@),
                    cur: chord@,
                    time: time@,
                    stopped: false,
                })
            },
            stopped ==> {
                &&& encode_fold(events_v, hl, lim, t + 1).stopped
                &&& encode_fold(events_v, hl, lim, t + 1).done == chords_view(encoding@)
                &&& encode_fold(events_v, hl, lim, t + 1).cur == chord@
                &&& t < n
            },
        decreases n - t + if stopped {
            0int
        } else {
            1int
        },
    {
        let ghost s_pre = encode_fold(events_v, hl, lim, t as int);
        let e: NoteEvent = events[t];
        time = time.add(e.get_time_delta());
        if !data.continue_sampling(time.ceil_units_u32()) {
            stopped = true;
            proof {
                assert(encode_stops(s_pre, events_v[t as int], hl, lim));
                assert(encode_fold(events_v, hl, lim, t + 1).stopped);
            }
        } else {
            let same_timestep: bool = e.get_time_delta().raw() == 0;
            if same_timestep {
                let _outcome = chord.try_add(e.get_note(), e.get_time_delta());
            } else {
                if !chord.is_none() {
                    encoding.push(chord.snapshot());
                }
                chord.reset();
                let _outcome = chord.try_add(e.get_note(), e.get_time_delta());
            }
            proof {
                let s_post = encode_fold(events_v, hl, lim, t + 1);
                assert(s_post == encode_step(s_pre, events_v[t as int]));
                if events_v[t as int].time_delta_ms@ == 0 {
                    assert(chords_view(encoding@) == s_post.done);
                } else {
                    assert(chords_view(encoding@) =~= s_post.done);
                }
                assert(chord@ == s_post.cur);
            }
            t = t + 1;
        }
    }
    proof {
        if stopped {
            lemma_fold_frozen(events_v, hl, lim, t + 1, n as int);
        }
        let s_end = encode_fold(events_v, hl, lim, n as int);
        assert(s_end.done == chords_view(encoding@));
        assert(s_end.cur == chord@);
    }

    encoding.push(chord);
    encoding.push(Chord::end());
    let r = MIDIEncoding::new(encoding);
    proof {
        assert(r@ =~= encode_result(events_v, hl, lim));
    }
    r
}

/// The events one chord contributes when decoding: none for an empty
/// slot, else one event per note carrying the chord's time delta.
pub open spec fn chord_events(c: ChordV) -> Seq<NoteEvent> {
    if c.is_none {
        Seq::empty()
    } else {
        Seq::new(
            c.notes.len(),
            |j: int|
                NoteEvent { time_delta_ms: Fixed { raw: c.time_delta as i64 }, note: c.notes[j] },
        )
    }
}

/// The events a chord sequence decodes to, in order.
pub open spec fn decode_events(chords: Seq<ChordV>) -> Seq<NoteEvent>
    decreases chords.len(),
{
    if chords.len() == 0 {
        Seq::empty()
    } else {
        decode_events(chords.drop_last()) + chord_events(chords.last())
    }
}

/// Decode chords back into a flat event stream, skipping empty slots.
pub fn decode(midi: MIDIEncoding) -> (r: Vec<NoteEvent>)
    ensures
        r@ == decode_events(midi@),
{
    let mut events: Vec<NoteEvent> = Vec::new();
    let chords: &Vec<Chord> = midi.get_encoding();
    let n = chords.len();
    let mut t: usize = 0;
    proof {
        assert(chords_view(chords@) == midi@);
        assert(events@ =~= decode_events(midi@.take(0)));
    }
    while t < n
        invariant
            0 <= t <= n,
            n == chords@.len(),
            chords_view(chords@) == midi@,
            midi@.len() == n,
            events@ == decode_events(midi@.take(t as int)),
        decreases n - t,
    {
        proof {
            assert(chords_view(chords@)[t as int] == chords@[t as int]@);
            assert(midi@.take(t + 1).drop_last() =~= midi@.take(t as int));
            assert(midi@.take(t + 1).last() == midi@[t as int]);
        }
        let chord: &Chord = &chords[t];
        if !chord.is_none() {
            let chord_events_vec: Vec<NoteEvent> = chord.get_events();
            proof {
                assert forall|i: int| 0 <= i < chord_events_vec@.len() implies
                    #[trigger] chord_events_vec@[i] == chord_events(midi@[t as int])[i] by {
                    assert(chord_events_vec@[i].time_delta_ms@ == chord@.time_delta);
                }
            }
            let m = chord_events_vec.len();
            let mut j: usize = 0;
            while j < m
                invariant
                    0 <= j <= m,
                    m == chord_events_vec@.len(),
                    t < n,
                    chords_view(chords@) == midi@,
                    midi@.len() == n,
                    chord_events_vec@.len() == chord_events(midi@[t as int]).len(),
                    forall|i: int|
                        0 <= i < m ==> #[trigger] chord_events_vec@[i] == chord_events(
                            midi@[t as int],
                        )[i],
                    events@ == decode_events(midi@.take(t as int)) + chord_events(
                        midi@[t as int],
                    ).take(j as int),
                decreases m - j,
            {
                proof {
                    assert(chord_events(midi@[t as int]).take(j + 1) =~= chord_events(
                        midi@[t as int],
                    ).take(j as int).push(chord_events(midi@[t as int])[j as int]));
                }
                events.push(chord_events_vec[j]);
                j = j + 1;
            }
            proof {
                assert(chord_events(midi@[t as int]).take(m as int) =~= chord_events(
                    midi@[t as int],
                ));
                assert(events@ =~= decode_events(midi@.take(t + 1)));
            }
        } else {
            proof {
                assert(chord_events(midi@[t as int]) =~= Seq::<NoteEvent>::empty());
                assert(events@ =~= decode_events(midi@.take(t + 1)));
            }
        }
        t = t + 1;
    }
    proof {
        assert(midi@.take(n as int) =~= midi@);
    }
    events
}

} // verus!
