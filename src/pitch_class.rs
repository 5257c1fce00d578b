use vstd::prelude::*;

use crate::error::ParsePitchClassError;
use crate::text::chars_of;

verus! {

/// The twelve chromatic pitch classes, in chromatic order from C.
#[derive(Debug, Clone, Copy, PartialEq, Eq, PartialOrd, Ord, Hash, Structural)]
pub enum PitchClass {
    C,
    CSharp,
    D,
    DSharp,
    E,
    F,
    FSharp,
    G,
    GSharp,
    A,
    ASharp,
    B,
}

impl PitchClass {
    /// The canonical sharp-only spelling: a capital letter, then `#` for a sharp.
    pub open spec fn spelling(self) -> Seq<char> {
        match self {
            PitchClass::C => seq!['C'],
            PitchClass::CSharp => seq!['C', '#'],
            PitchClass::D => seq!['D'],
            PitchClass::DSharp => seq!['D', '#'],
            PitchClass::E => seq!['E'],
            PitchClass::F => seq!['F'],
            PitchClass::FSharp => seq!['F', '#'],
            PitchClass::G => seq!['G'],
            PitchClass::GSharp => seq!['G', '#'],
            PitchClass::A => seq!['A'],
            PitchClass::ASharp => seq!['A', '#'],
            PitchClass::B => seq!['B'],
        }
    }

    /// A, A# and B take the register word of the next scientific octave:
    /// the register boundary sits one semitone below C.
    pub open spec fn starts_next_register(self) -> bool {
        self is A || self is ASharp || self is B
    }

    /// The canonical spelling as an owned string.
    pub fn to_string(&self) -> (r: String)
        ensures
            r@ == self.spelling(),
    {
        let mut r = String::new();
        r.append(self.as_str());
        r
    }

    /// The canonical spelling.
    pub fn as_str(&self) -> (r: &str)
        ensures
            r@ == self.spelling(),
    {
        match self {
            PitchClass::C => {
                proof { reveal_strlit("C"); }
                "C"
            },
            PitchClass::CSharp => {
                proof { reveal_strlit("C#"); }
                "C#"
            },
            PitchClass::D => {
                proof { reveal_strlit("D"); }
                "D"
            },
            PitchClass::DSharp => {
                proof { reveal_strlit("D#"); }
                "D#"
            },
            PitchClass::E => {
                proof { reveal_strlit("E"); }
                "E"
            },
            PitchClass::F => {
                proof { reveal_strlit("F"); }
                "F"
            },
            PitchClass::FSharp => {
                proof { reveal_strlit("F#"); }
                "F#"
            },
            PitchClass::G => {
                proof { reveal_strlit("G"); }
                "G"
            },
            PitchClass::GSharp => {
                proof { reveal_strlit("G#"); }
                "G#"
            },
            PitchClass::A => {
                proof { reveal_strlit("A"); }
                "A"
            },
            PitchClass::ASharp => {
                proof { reveal_strlit("A#"); }
                "A#"
            },
            PitchClass::B => {
                proof { reveal_strlit("B"); }
                "B"
            },
        }
    }
}

/// The pitch class whose spelling is `cs[lo..hi]`, if there is one.
pub(crate) fn class_in(cs: &Vec<char>, lo: usize, hi: usize) -> (r: Option<PitchClass>)
    requires
        lo <= hi <= cs@.len(),
    ensures
        match r {
            Some(p) => p.spelling() == cs@.subrange(lo as int, hi as int),
            None => forall|p: PitchClass| p.spelling() != cs@.subrange(lo as int, hi as int),
        },
{
    let ghost part = cs@.subrange(lo as int, hi as int);
    let r = if hi - lo == 1 {
        match cs[lo] {
            'C' => Some(PitchClass::C),
            'D' => Some(PitchClass::D),
            'E' => Some(PitchClass::E),
            'F' => Some(PitchClass::F),
            'G' => Some(PitchClass::G),
            'A' => Some(PitchClass::A),
            'B' => Some(PitchClass::B),
            _ => None,
        }
    } else if hi - lo == 2 && cs[lo + 1] == '#' {
        match cs[lo] {
            'C' => Some(PitchClass::CSharp),
            'D' => Some(PitchClass::DSharp),
            'F' => Some(PitchClass::FSharp),
            'G' => Some(PitchClass::GSharp),
            'A' => Some(PitchClass::ASharp),
            _ => None,
        }
    } else {
        None
    };
    proof {
        match r {
            Some(p) => {
                assert(p.spelling() =~= part);
            },
            None => {
                assert forall|p: PitchClass| p.spelling() != part by {
                    if p.spelling() == part {
                        assert(part.len() == p.spelling().len());
                        assert(part[0] == cs@[lo as int]);
                        assert(part.len() == 2 ==> part[1] == cs@[lo + 1]);
                        assert(part[0] == p.spelling()[0]);
                        assert(part.len() == 2 ==> part[1] == p.spelling()[1]);
                    }
                }
            },
        }
    }
    r
}

/// Reads a pitch class from its canonical spelling; the match is exact and
/// case-sensitive.
pub fn parse_pitch_class(s: &str) -> (r: Result<PitchClass, ParsePitchClassError>)
    ensures
        match r {
            Ok(p) => p.spelling() == s@,
            Err(_) => forall|p: PitchClass| p.spelling() != s@,
        },
{
    let cs = chars_of(s);
    match class_in(&cs, 0, cs.len()) {
        Some(p) => {
            assert(cs@.subrange(0, cs@.len() as int) =~= s@);
            Ok(p)
        },
        None => {
            assert(cs@.subrange(0, cs@.len() as int) =~= s@);
            Err(ParsePitchClassError)
        },
    }
}

impl std::str::FromStr for PitchClass {
    type Err = ParsePitchClassError;

    fn from_str(s: &str) -> Result<PitchClass, ParsePitchClassError> {
        parse_pitch_class(s)
    }
}

} // verus!
