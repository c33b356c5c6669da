use vstd::prelude::*;

verus! {

/// Number of pitched notes: ten octaves of twelve semitones.
pub const NOTE_KEYS: u8 = 120;

/// What one cell of a pattern asks for.
#[derive(Clone, Copy, PartialEq, Eq, Structural, Debug)]
pub enum Note {
    /// A pitched note, `octave * 12 + semitone` (C0 is 0, C5 is 60).
    Key(u8),
    /// Refers to the event of the previous track.
    PreviousTrack,
    /// Releases the note that sounds on the track.
    Off,
    /// Stops the note that sounds on the track at once ("choke").
    Cut,
    /// Lets the note that sounds on the track fade out.
    Fade,
    /// Nothing happens on this track.
    Empty,
}

/// The byte that stands for a note in the tracker's note column.
pub open spec fn note_code(n: Note) -> u8 {
    match n {
        Note::Key(k) => k,
        Note::PreviousTrack => 120,
        Note::Off => 128,
        Note::Cut => 129,
        Note::Fade => 130,
        Note::Empty => 255,
    }
}

impl Note {
    /// Reads a note from its byte: 0..=119 are keys, 120 is the previous-track
    /// marker, 128 to 130 are Off, Cut and Fade, everything else is empty.
    pub fn from_code(code: u8) -> (n: Note)
        ensures
            code < NOTE_KEYS ==> n == Note::Key(code),
            code == 120 ==> n == Note::PreviousTrack,
            code == 128 ==> n == Note::Off,
            code == 129 ==> n == Note::Cut,
            code == 130 ==> n == Note::Fade,
            !(code <= 120 || 128 <= code <= 130) ==> n == Note::Empty,
    {
        if code < NOTE_KEYS {
            Note::Key(code)
        } else if code == 120 {
            Note::PreviousTrack
        } else if code == 128 {
            Note::Off
        } else if code == 129 {
            Note::Cut
        } else if code == 130 {
            Note::Fade
        } else {
            Note::Empty
        }
    }

    /// The byte that stands for this note.
    pub fn code(&self) -> (c: u8)
        ensures
            c == note_code(*self),
    {
        match self {
            Note::Key(k) => *k,
            Note::PreviousTrack => 120,
            Note::Off => 128,
            Note::Cut => 129,
            Note::Fade => 130,
            Note::Empty => 255,
        }
    }
}

/// One cell of a pattern.
#[derive(Clone, Copy, PartialEq, Eq, Structural, Debug)]
pub struct TrackEvent {
    pub note: Note,
    /// Instrument number plus one; 0 repeats the track's last instrument.
    pub instrument: u8,
    /// Velocity 0..=127; 128 and above mean "not set".
    pub volume: u8,
}

/// The cell that holds nothing.
pub open spec fn empty_cell() -> TrackEvent {
    TrackEvent { note: Note::Empty, instrument: 0, volume: 128 }
}

impl TrackEvent {
    pub fn empty() -> (e: TrackEvent)
        ensures
            e == empty_cell(),
    {
        TrackEvent { note: Note::Empty, instrument: 0, volume: 128 }
    }
}

/// A grid of rows by tracks.
#[derive(Clone, Debug)]
pub struct Pattern {
    pub rows: Vec<Vec<TrackEvent>>,
    /// Rows per beat.
    pub rpb: u8,
}

impl Pattern {
    /// Number of tracks: the width of the first row.
    pub open spec fn tracks(&self) -> nat {
        if self.rows@.len() > 0 {
            self.rows@[0]@.len()
        } else {
            0
        }
    }

    /// The cells, row by row.
    pub open spec fn grid(&self) -> Seq<Seq<TrackEvent>> {
        Seq::new(self.rows@.len(), |i: int| self.rows@[i]@)
    }

    /// At least one row, every row as wide as the first, and a positive
    /// number of rows per beat.
    pub open spec fn wf(&self) -> bool {
        &&& self.rows@.len() > 0
        &&& self.rpb > 0
        &&& forall|i: int| 0 <= i < self.rows@.len() ==> #[trigger] self.rows@[i]@.len() == self.tracks()
    }

    /// An empty pattern of `rows_amount` rows and `tracks_amount` tracks at
    /// four rows per beat.
    pub fn new(tracks_amount: u8, rows_amount: u8) -> (p: Pattern)
        ensures
            p.rpb == 4,
            p.rows@.len() == rows_amount,
            forall|i: int| 0 <= i < rows_amount ==> #[trigger] p.rows@[i]@ == Seq::new(tracks_amount as nat, |t: int| empty_cell()),
            rows_amount > 0 ==> p.wf() && p.tracks() == tracks_amount,
    {
        let mut rows: Vec<Vec<TrackEvent>> = Vec::with_capacity(rows_amount as usize);
        let mut r: u8 = 0;
        while r < rows_amount
            invariant
                r <= rows_amount,
                rows@.len() == r,
                forall|i: int| 0 <= i < r ==> #[trigger] rows@[i]@ == Seq::new(tracks_amount as nat, |t: int| empty_cell()),
            decreases rows_amount - r,
        {
            let mut row: Vec<TrackEvent> = Vec::with_capacity(tracks_amount as usize);
            let mut t: u8 = 0;
            while t < tracks_amount
                invariant
                    t <= tracks_amount,
                    row@ == Seq::new(t as nat, |k: int| empty_cell()),
                decreases tracks_amount - t,
            {
                row.push(TrackEvent::empty());
                t = t + 1;
                assert(row@ =~= Seq::new(t as nat, |k: int| empty_cell()));
            }
            rows.push(row);
            r = r + 1;
        }
        let p = Pattern { rows, rpb: 4 };
        if rows_amount > 0 {
            assert(p.rows@[0]@.len() == tracks_amount);
            assert forall|i: int| 0 <= i < p.rows@.len() implies #[trigger] p.rows@[i]@.len() == p.tracks() by {}
        }
        p
    }
}

/// Name of semitone `i` (0 is C), two characters wide.
pub open spec fn semitone_name(i: int) -> Seq<char> {
    if i == 0 {
        "C-"@
    } else if i == 1 {
        "C#"@
    } else if i == 2 {
        "D-"@
    } else if i == 3 {
        "D#"@
    } else if i == 4 {
        "E-"@
    } else if i == 5 {
        "F-"@
    } else if i == 6 {
        "F#"@
    } else if i == 7 {
        "G-"@
    } else if i == 8 {
        "G#"@
    } else if i == 9 {
        "A-"@
    } else if i == 10 {
        "A#"@
    } else {
        "B-"@
    }
}

/// Decimal digit `d`.
pub open spec fn digit(d: int) -> Seq<char> {
    if d == 0 {
        "0"@
    } else if d == 1 {
        "1"@
    } else if d == 2 {
        "2"@
    } else if d == 3 {
        "3"@
    } else if d == 4 {
        "4"@
    } else if d == 5 {
        "5"@
    } else if d == 6 {
        "6"@
    } else if d == 7 {
        "7"@
    } else if d == 8 {
        "8"@
    } else {
        "9"@
    }
}

/// How a note reads in the pattern printout: three characters, such as
/// `C-5`, `...`, `Off`.
pub open spec fn note_label(n: Note) -> Seq<char> {
    match n {
        Note::Empty => "..."@,
        Note::PreviousTrack => "<<<"@,
        Note::Off => "Off"@,
        Note::Cut => "Cut"@,
        Note::Fade => "Fde"@,
        Note::Key(k) => if k < NOTE_KEYS {
            semitone_name(k as int % 12) + digit(k as int / 12)
        } else {
            "???"@
        },
    }
}

fn semitone_str(i: u8) -> (r: &'static str)
    requires
        i < 12,
    ensures
        r@ == semitone_name(i as int),
{
    match i {
        0 => "C-",
        1 => "C#",
        2 => "D-",
        3 => "D#",
        4 => "E-",
        5 => "F-",
        6 => "F#",
        7 => "G-",
        8 => "G#",
        9 => "A-",
        10 => "A#",
        _ => "B-",
    }
}

fn digit_str(d: u8) -> (r: &'static str)
    requires
        d < 10,
    ensures
        r@ == digit(d as int),
{
    match d {
        0 => "0",
        1 => "1",
        2 => "2",
        3 => "3",
        4 => "4",
        5 => "5",
        6 => "6",
        7 => "7",
        8 => "8",
        _ => "9",
    }
}

/// The note as the pattern printout shows it.
pub fn format_note(note: Note) -> (r: String)
    ensures
        r@ == note_label(note),
{
    match note {
        Note::Empty => String::from_str("..."),
        Note::PreviousTrack => String::from_str("<<<"),
        Note::Off => String::from_str("Off"),
        Note::Cut => String::from_str("Cut"),
        Note::Fade => String::from_str("Fde"),
        Note::Key(k) => {
            if k < NOTE_KEYS {
                String::from_str(semitone_str(k % 12)).concat(digit_str(k / 12))
            } else {
                String::from_str("???")
            }
        },
    }
}

} // verus!
