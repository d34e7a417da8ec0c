//! The words that announce notes to a MIDI destination.

use crate::track::Action;
use vstd::prelude::*;

verus! {

/// The 32-bit MIDI 1.0 channel-voice word for one note: note-on or
/// note-off, with the note and the velocity in the bit positions in which
/// the caller supplies them.
pub open spec fn note_word(on: bool, note: u32, velocity: u32) -> u32 {
    0x20000000u32 | (if on { 0x00900000u32 } else { 0x00800000u32 }) | note | velocity
}

/// The words for the notes of a chord, note by note.
pub open spec fn chord_words(on: bool, notes: Seq<u32>, velocity: u32) -> Seq<u32> {
    Seq::new(notes.len(), |i: int| note_word(on, notes[i], velocity))
}

/// The words that switch every note of a chord on, or off, at one
/// velocity.
pub fn chord<const N: usize>(on: bool, notes: &[u32; N], velocity: u32) -> (msg: [u32; N])
    ensures
        msg@ == chord_words(on, notes@, velocity),
{
    let event: u32 = if on { 0x00900000u32 } else { 0x00800000u32 };
    let mut msg: [u32; N] = [0u32; N];
    let mut i: usize = 0;
    while i < N
        invariant
            i <= N,
            event == if on { 0x00900000u32 } else { 0x00800000u32 },
            forall|j: int| 0 <= j < i ==> #[trigger] msg@[j] == note_word(on, notes@[j], velocity),
        decreases N - i,
    {
        msg[i] = 0x20000000u32 | event | notes[i] | velocity;
        i += 1;
    }
    assert(msg@ =~= chord_words(on, notes@, velocity));
    msg
}

/// What goes to the output for an action: a trigger is a percussive
/// stroke, the chord switched on and at once off again; anything else is
/// silence.
pub fn emission<const N: usize>(
    action: Action,
    notes: &[u32; N],
    velocity: u32,
) -> (out: Vec<[u32; N]>)
    ensures
        action == Action::Trigger ==> out@.len() == 2
            && out@[0]@ == chord_words(true, notes@, velocity)
            && out@[1]@ == chord_words(false, notes@, velocity),
        action != Action::Trigger ==> out@.len() == 0,
{
    let mut out: Vec<[u32; N]> = Vec::new();
    if action == Action::Trigger {
        out.push(chord(true, notes, velocity));
        out.push(chord(false, notes, velocity));
    }
    out
}

} // verus!
