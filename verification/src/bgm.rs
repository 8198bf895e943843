//! The theme tune: the notes, how each is made to sound, and the melody.
use vstd::prelude::*;

verus! {

/// Beats in a minute.
pub const BPM: u32 = 144;

/// The length of a whole note in milliseconds.
pub const WHOLE_NOTE: u32 = (60000 * 4) / BPM;

/// The pause in milliseconds that ends each note.
pub const SILENT_DURATION: u32 = WHOLE_NOTE / 64;

/// The number of notes in the tune.
pub const TUNE_LENGTH: usize = 99;

/// The notes of the tune, and the rest between them.
#[derive(Debug, Clone, Copy, PartialEq, Eq, Structural)]
pub enum Note {
    A4,
    B4,
    Gs4,
    A5,
    C5,
    D5,
    E5,
    F5,
    G5,
    Gs5,
    Rest,
}

/// The clock divider and the counter limit that make a note sound.
#[derive(Debug, Clone, Copy, PartialEq, Eq, Structural)]
pub struct Frequency {
    pub clk_div: u8,
    pub cnt: u16,
}

/// The tune: each note with the part of a whole note that it lasts, and
/// whether it is dotted.
pub const TETRIS_BGM: [(Note, u32, bool); 99] = [
    (Note::E5, 4, false),
    (Note::B4, 8, false),
    (Note::C5, 8, false),
    (Note::D5, 4, false),
    (Note::C5, 8, false),
    (Note::B4, 8, false),
    (Note::A4, 4, false),
    (Note::A4, 8, false),
    (Note::C5, 8, false),
    (Note::E5, 4, false),
    (Note::D5, 8, false),
    (Note::C5, 8, false),
    (Note::B4, 4, true),
    (Note::C5, 8, false),
    (Note::D5, 4, false),
    (Note::E5, 4, false),
    (Note::C5, 4, false),
    (Note::A4, 4, false),
    (Note::A4, 8, false),
    (Note::A4, 4, false),
    (Note::B4, 8, false),
    (Note::C5, 8, false),
    (Note::D5, 4, true),
    (Note::F5, 8, false),
    (Note::A5, 4, false),
    (Note::G5, 8, false),
    (Note::F5, 8, false),
    (Note::E5, 4, true),
    (Note::C5, 8, false),
    (Note::E5, 4, false),
    (Note::D5, 8, false),
    (Note::C5, 8, false),
    (Note::B4, 4, false),
    (Note::B4, 8, false),
    (Note::C5, 8, false),
    (Note::D5, 4, false),
    (Note::E5, 4, false),
    (Note::C5, 4, false),
    (Note::A4, 4, false),
    (Note::A4, 4, false),
    (Note::Rest, 4, false),
    (Note::E5, 4, false),
    (Note::B4, 8, false),
    (Note::C5, 8, false),
    (Note::D5, 4, false),
    (Note::C5, 8, false),
    (Note::B4, 8, false),
    (Note::A4, 4, false),
    (Note::A4, 8, false),
    (Note::C5, 8, false),
    (Note::E5, 4, false),
    (Note::D5, 8, false),
    (Note::C5, 8, false),
    (Note::B4, 4, true),
    (Note::C5, 8, false),
    (Note::D5, 4, false),
    (Note::E5, 4, false),
    (Note::C5, 4, false),
    (Note::A4, 4, false),
    (Note::A4, 8, false),
    (Note::A4, 4, false),
    (Note::B4, 8, false),
    (Note::C5, 8, false),
    (Note::D5, 4, true),
    (Note::F5, 8, false),
    (Note::A5, 4, false),
    (Note::G5, 8, false),
    (Note::F5, 8, false),
    (Note::E5, 4, true),
    (Note::C5, 8, false),
    (Note::E5, 4, false),
    (Note::D5, 8, false),
    (Note::C5, 8, false),
    (Note::B4, 4, false),
    (Note::B4, 8, false),
    (Note::C5, 8, false),
    (Note::D5, 4, false),
    (Note::E5, 4, false),
    (Note::C5, 4, false),
    (Note::A4, 4, false),
    (Note::A4, 4, false),
    (Note::Rest, 4, false),
    (Note::E5, 2, false),
    (Note::C5, 2, false),
    (Note::D5, 2, false),
    (Note::B4, 2, false),
    (Note::C5, 2, false),
    (Note::A4, 2, false),
    (Note::Gs4, 2, false),
    (Note::B4, 4, false),
    (Note::Rest, 8, false),
    (Note::E5, 2, false),
    (Note::C5, 2, false),
    (Note::D5, 2, false),
    (Note::B4, 2, false),
    (Note::C5, 4, false),
    (Note::E5, 4, false),
    (Note::A5, 2, false),
    (Note::Gs5, 2, false),
];

impl Note {
    /// The clock divider and counter limit for each note.
    pub open spec fn sound(self) -> Frequency {
        match self {
            Note::A4 => Frequency { clk_div: 10, cnt: 34091 },
            Note::B4 => Frequency { clk_div: 181, cnt: 1678 },
            Note::Gs4 => Frequency { clk_div: 11, cnt: 32835 },
            Note::C5 => Frequency { clk_div: 5, cnt: 57334 },
            Note::D5 => Frequency { clk_div: 9, cnt: 28377 },
            Note::E5 => Frequency { clk_div: 4, cnt: 56883 },
            Note::F5 => Frequency { clk_div: 6, cnt: 35793 },
            Note::G5 => Frequency { clk_div: 3, cnt: 63776 },
            Note::Gs5 => Frequency { clk_div: 5, cnt: 36118 },
            Note::A5 => Frequency { clk_div: 5, cnt: 34091 },
            Note::Rest => Frequency { clk_div: 1, cnt: 2500 },
        }
    }

    /// How the note is made to sound.
    pub fn frequency(&self) -> (sound: Frequency)
        ensures
            sound == self.sound(),
    {
        match self {
            Self::A4 => Frequency { clk_div: 10, cnt: 34091 },
            Self::B4 => Frequency { clk_div: 181, cnt: 1678 },
            Self::Gs4 => Frequency { clk_div: 11, cnt: 32835 },
            Self::C5 => Frequency { clk_div: 5, cnt: 57334 },
            Self::D5 => Frequency { clk_div: 9, cnt: 28377 },
            Self::E5 => Frequency { clk_div: 4, cnt: 56883 },
            Self::F5 => Frequency { clk_div: 6, cnt: 35793 },
            Self::G5 => Frequency { clk_div: 3, cnt: 63776 },
            Self::Gs5 => Frequency { clk_div: 5, cnt: 36118 },
            Self::A5 => Frequency { clk_div: 5, cnt: 34091 },
            Self::Rest => Frequency { clk_div: 1, cnt: 2500 },
        }
    }
}

/// The time in milliseconds that a note lasts which is the `divider`-th part
/// of a whole note; a dotted note lasts half as long again.
pub open spec fn lasting(divider: u32, dotted: bool) -> int {
    let plain = WHOLE_NOTE as int / divider as int;
    if dotted {
        plain * 3 / 2
    } else {
        plain
    }
}

/// The note at place `k` of the tune played over and over, with the time in
/// milliseconds that it lasts.
pub open spec fn tune_at(k: int) -> (Note, u32) {
    let entry = TETRIS_BGM@[k % 99];
    (entry.0, lasting(entry.1, entry.2) as u32)
}

/// The tune, played over and over: a place in it.
pub struct Melody {
    position: usize,
}

impl Melody {
    #[verifier::type_invariant]
    spec fn in_tune(self) -> bool {
        self.position < TUNE_LENGTH
    }

    /// The place of the note that comes next, counted from the start of the
    /// tune.
    pub closed spec fn position(&self) -> int {
        self.position as int
    }

    /// The next note and the time in milliseconds that it lasts. After the
    /// last note the tune starts again.
    pub fn next(&mut self) -> (note: (Note, u32))
        ensures
            0 <= old(self).position() < TUNE_LENGTH,
            note == tune_at(old(self).position()),
            note.1 > SILENT_DURATION,
            final(self).position() == (old(self).position() + 1) % 99,
    {
        proof {
            use_type_invariant(&*self);
        }
        let (note, divider, dotted) = TETRIS_BGM[self.position];
        let mut duration = WHOLE_NOTE / divider;
        if dotted {
            duration *= 3;
            duration /= 2;
        }
        self.position = if self.position + 1 < TUNE_LENGTH {
            self.position + 1
        } else {
            0
        };
        (note, duration)
    }
}

/// The tune from its first note.
pub fn melody() -> (tune: Melody)
    ensures
        tune.position() == 0,
{
    Melody { position: 0 }
}

} // verus!
