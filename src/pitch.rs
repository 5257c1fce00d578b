use vstd::prelude::*;

use crate::error::ParsePitchError;
use crate::numeral::{decimal, is_digit, lemma_decimal, octave_in, push_decimal};
use crate::pitch_class::{class_in, PitchClass};
use crate::register::{lemma_register_word_injective, push_register_word, register_in, register_word};
use crate::text::chars_of;

verus! {

/// A concrete pitch: a pitch class in a scientific octave (octave 4 holds
/// middle C).
#[derive(Debug, Clone, Copy, PartialEq, Eq, PartialOrd, Ord, Hash, Structural)]
pub struct Pitch {
    pub octave: u8,
    pub pitch_class: PitchClass,
}

impl Pitch {
    /// Scientific notation: the class spelling, then the octave in decimal.
    pub open spec fn scientific_text(self) -> Seq<char> {
        self.pitch_class.spelling() + decimal(self.octave as nat)
    }

    /// The register level of this pitch: its scientific octave, raised by
    /// one for A, A# and B.
    pub open spec fn register_level(self) -> nat {
        if self.pitch_class.starts_next_register() {
            self.octave as nat + 1
        } else {
            self.octave as nat
        }
    }

    /// Register-word notation: the register word, then the class spelling.
    pub open spec fn alternative_text(self) -> Seq<char> {
        register_word(self.register_level()) + self.pitch_class.spelling()
    }

    /// This pitch, to be shown in scientific notation.
    pub fn scientific_pitch_notation(&self) -> (r: ScientificPitchNotation<'_>)
        ensures
            *r.0 == *self,
    {
        ScientificPitchNotation(self)
    }

    /// This pitch, to be shown in register-word notation.
    pub fn alternative_pitch_notation(&self) -> (r: AlternativePitchNotation<'_>)
        ensures
            *r.0 == *self,
    {
        AlternativePitchNotation(self)
    }

    /// The pitch in scientific notation.
    pub fn to_string(&self) -> (r: String)
        ensures
            r@ == self.scientific_text(),
    {
        self.scientific_pitch_notation().to_string()
    }
}

pub(crate) proof fn lemma_scientific_split(p: Pitch, s: Seq<char>)
    requires
        p.scientific_text() == s,
    ensures
        s.len() >= 2,
        (s[1] == '#') <==> p.pitch_class.spelling().len() == 2,
        s.subrange(0, p.pitch_class.spelling().len() as int) == p.pitch_class.spelling(),
        s.subrange(p.pitch_class.spelling().len() as int, s.len() as int) == decimal(p.octave as nat),
{
    let sp = p.pitch_class.spelling();
    let d = decimal(p.octave as nat);
    lemma_decimal(p.octave as nat);
    assert(is_digit(d[0]));
    assert(s.subrange(0, sp.len() as int) =~= sp);
    assert(s.subrange(sp.len() as int, s.len() as int) =~= d);
    if sp.len() == 1 {
        assert(s[1] == d[0]);
    }
}

/// The pitch whose scientific notation is `cs`, if there is one.
pub(crate) fn scientific_in(cs: &Vec<char>) -> (r: Option<Pitch>)
    ensures
        match r {
            Some(p) => p.scientific_text() == cs@,
            None => forall|p: Pitch| p.scientific_text() != cs@,
        },
{
    let n = cs.len();
    if n < 2 {
        proof {
            assert forall|p: Pitch| p.scientific_text() != cs@ by {
                if p.scientific_text() == cs@ {
                    lemma_scientific_split(p, cs@);
                }
            }
        }
        return None;
    }
    let k: usize = if cs[1] == '#' { 2 } else { 1 };
    let class = class_in(cs, 0, k);
    let octave = octave_in(cs, k);
    match (class, octave) {
        (Some(pitch_class), Some(octave)) => {
            let p = Pitch { octave, pitch_class };
            proof {
                assert(cs@ =~= cs@.subrange(0, k as int) + cs@.subrange(k as int, n as int));
            }
            Some(p)
        },
        _ => {
            proof {
                assert forall|p: Pitch| p.scientific_text() != cs@ by {
                    if p.scientific_text() == cs@ {
                        lemma_scientific_split(p, cs@);
                    }
                }
            }
            None
        },
    }
}

/// Reads scientific pitch notation: a class spelling immediately followed by
/// the octave in decimal, with no sign and no leading zero.
pub fn parse_scientific_pitch_notation(s: &str) -> (r: Result<Pitch, ParsePitchError>)
    ensures
        match r {
            Ok(p) => p.scientific_text() == s@,
            Err(_) => forall|p: Pitch| p.scientific_text() != s@,
        },
{
    let cs = chars_of(s);
    match scientific_in(&cs) {
        Some(p) => Ok(p),
        None => Err(ParsePitchError),
    }
}

pub(crate) proof fn lemma_alternative_split(p: Pitch, s: Seq<char>)
    requires
        p.alternative_text() == s,
    ensures
        s.len() >= p.pitch_class.spelling().len(),
        (s.last() == '#') <==> p.pitch_class.spelling().len() == 2,
        s.subrange(s.len() - p.pitch_class.spelling().len(), s.len() as int)
            == p.pitch_class.spelling(),
        s.subrange(0, s.len() - p.pitch_class.spelling().len()) == register_word(
            p.register_level(),
        ),
{
    let sp = p.pitch_class.spelling();
    let w = register_word(p.register_level());
    let n = s.len() as int;
    assert(s.subrange(n - sp.len(), n) =~= sp);
    assert(s.subrange(0, n - sp.len()) =~= w);
    assert(s.last() == sp.last());
}

/// The pitch whose register-word notation is `cs`, if there is one.
pub(crate) fn alternative_in(cs: &Vec<char>) -> (r: Option<Pitch>)
    ensures
        match r {
            Some(p) => p.alternative_text() == cs@,
            None => forall|p: Pitch| p.alternative_text() != cs@,
        },
{
    let n = cs.len();
    if n == 0 || (n == 1 && cs[0] == '#') {
        proof {
            assert forall|p: Pitch| p.alternative_text() != cs@ by {
                if p.alternative_text() == cs@ {
                    lemma_alternative_split(p, cs@);
                }
            }
        }
        return None;
    }
    let k: usize = if cs[n - 1] == '#' { 2 } else { 1 };
    let class = class_in(cs, n - k, n);
    let level = register_in(cs, n - k);
    let r = match (class, level) {
        (Some(pitch_class), Some(level)) => {
            let raised = matches!(pitch_class, PitchClass::A | PitchClass::ASharp | PitchClass::B);
            if raised && level == 0 {
                // There is no register below the lowest to take A, A# or B from.
                None
            } else {
                let octave = if raised { level - 1 } else { level };
                if octave > 255 {
                    None
                } else {
                    let p = Pitch { octave: octave as u8, pitch_class };
                    proof {
                        assert(cs@ =~= cs@.subrange(0, n - k) + cs@.subrange(n - k, n as int));
                    }
                    Some(p)
                }
            }
        },
        _ => None,
    };
    proof {
        if r is None {
            assert forall|p: Pitch| p.alternative_text() != cs@ by {
                if p.alternative_text() == cs@ {
                    lemma_alternative_split(p, cs@);
                    let l = level->0;
                    lemma_register_word_injective(l as nat, p.register_level());
                }
            }
        }
    }
    r
}

/// Reads register-word notation: a register word immediately followed by a
/// class spelling.
pub fn parse_alternative_pitch_notation(s: &str) -> (r: Result<Pitch, ParsePitchError>)
    ensures
        match r {
            Ok(p) => p.alternative_text() == s@,
            Err(_) => forall|p: Pitch| p.alternative_text() != s@,
        },
{
    let cs = chars_of(s);
    match alternative_in(&cs) {
        Some(p) => Ok(p),
        None => Err(ParsePitchError),
    }
}

/// The two surface notations of a pitch.
#[derive(Debug, Clone, Copy, PartialEq, Eq, Structural)]
pub enum PitchFormat {
    ScientificPitchNotation,
    AlternativePitchNotation,
}

/// A pitch together with the notation it was read from.
#[derive(Debug, Clone, Copy, PartialEq, Eq, Structural)]
pub struct PitchWithFormat {
    pub pitch: Pitch,
    pub format: PitchFormat,
}

impl PitchWithFormat {
    /// The pitch written in its notation.
    pub open spec fn text(self) -> Seq<char> {
        match self.format {
            PitchFormat::ScientificPitchNotation => self.pitch.scientific_text(),
            PitchFormat::AlternativePitchNotation => self.pitch.alternative_text(),
        }
    }
}

/// Reads a pitch in either notation and tells which one it was written in.
/// Scientific notation is tried first, then register-word notation; no text
/// is written in both.
pub fn parse_notation(s: &str) -> (r: Result<PitchWithFormat, ParsePitchError>)
    ensures
        match r {
            Ok(read) => read.text() == s@,
            Err(_) => forall|read: PitchWithFormat| read.text() != s@,
        },
{
    let cs = chars_of(s);
    if let Some(pitch) = scientific_in(&cs) {
        return Ok(PitchWithFormat { pitch, format: PitchFormat::ScientificPitchNotation });
    }
    if let Some(pitch) = alternative_in(&cs) {
        return Ok(PitchWithFormat { pitch, format: PitchFormat::AlternativePitchNotation });
    }
    Err(ParsePitchError)
}

/// A pitch as displayed in scientific notation.
#[derive(Debug, Clone, Copy, PartialEq, Eq)]
pub struct ScientificPitchNotation<'a>(pub &'a Pitch);

impl<'a> ScientificPitchNotation<'a> {
    /// The class spelling followed by the octave in decimal, e.g. "C#4".
    pub fn to_string(&self) -> (r: String)
        ensures
            r@ == self.0.scientific_text(),
    {
        let mut out = String::new();
        out.append(self.0.pitch_class.as_str());
        push_decimal(&mut out, self.0.octave);
        out
    }
}

/// A pitch as displayed in register-word notation.
#[derive(Debug, Clone, Copy, PartialEq, Eq)]
pub struct AlternativePitchNotation<'a>(pub &'a Pitch);

impl<'a> AlternativePitchNotation<'a> {
    /// The register word followed by the class spelling, e.g. "mid2C#".
    pub fn to_string(&self) -> (r: String)
        ensures
            r@ == self.0.alternative_text(),
    {
        let pitch_class = self.0.pitch_class;
        let level: u16 = match pitch_class {
            PitchClass::A | PitchClass::ASharp | PitchClass::B => self.0.octave as u16 + 1,
            _ => self.0.octave as u16,
        };
        let mut out = String::new();
        push_register_word(&mut out, level);
        out.append(pitch_class.as_str());
        out
    }
}

impl From<PitchWithFormat> for Pitch {
    fn from(value: PitchWithFormat) -> (r: Pitch)
        ensures
            r == value.pitch,
    {
        value.pitch
    }
}

impl vstd::std_specs::convert::FromSpecImpl<PitchWithFormat> for Pitch {
    open spec fn obeys_from_spec() -> bool {
        true
    }

    open spec fn from_spec(value: PitchWithFormat) -> Pitch {
        value.pitch
    }
}

impl std::str::FromStr for PitchWithFormat {
    type Err = ParsePitchError;

    fn from_str(s: &str) -> Result<PitchWithFormat, ParsePitchError> {
        parse_notation(s)
    }
}

impl std::str::FromStr for Pitch {
    type Err = ParsePitchError;

    fn from_str(s: &str) -> Result<Pitch, ParsePitchError> {
        match parse_notation(s) {
            Ok(read) => Ok(read.pitch),
            Err(e) => Err(e),
        }
    }
}

} // verus!
