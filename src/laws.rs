//! Properties that tie the parsers and renderers together.
use vstd::prelude::*;

use crate::numeral::{decimal, is_digit, lemma_decimal};
use crate::pitch::{Pitch, PitchFormat, PitchWithFormat};
use crate::pitch::{lemma_alternative_split, lemma_scientific_split};
use crate::pitch_class::PitchClass;
use crate::register::{lemma_register_word_injective, lemma_register_word_nonempty, register_word};

verus! {

/// ASCII lower-casing of one character.
pub open spec fn lower_char(c: char) -> char {
    if 'A' <= c && c <= 'Z' {
        ((c as u32) + 32) as char
    } else {
        c
    }
}

/// ASCII lower-casing of a text.
pub open spec fn lowercase(s: Seq<char>) -> Seq<char> {
    s.map_values(|c: char| lower_char(c))
}

proof fn lemma_spelling_shape(p: PitchClass)
    ensures
        p.spelling().len() == 1 || p.spelling().len() == 2,
        'A' <= p.spelling()[0] && p.spelling()[0] <= 'G',
        p.spelling().len() == 2 ==> p.spelling()[1] == '#',
        p.spelling().last() == '#' <==> p.spelling().len() == 2,
{
}

/// Each pitch class has its own spelling, so reading back the spelling of
/// `p` gives `p` and nothing else.
pub proof fn lemma_pitch_class_round_trip(p: PitchClass)
    ensures
        forall|q: PitchClass| q.spelling() == p.spelling() <==> q == p,
{
    assert forall|q: PitchClass| q.spelling() == p.spelling() implies q == p by {
        assert(q.spelling().len() == p.spelling().len());
        assert(q.spelling()[0] == p.spelling()[0]);
        if q.spelling().len() == 2 {
            assert(q.spelling()[1] == p.spelling()[1]);
        }
    }
}

proof fn lemma_scientific_injective(p: Pitch, q: Pitch)
    requires
        p.scientific_text() == q.scientific_text(),
    ensures
        p == q,
{
    let s = p.scientific_text();
    lemma_scientific_split(p, s);
    lemma_scientific_split(q, s);
    lemma_pitch_class_round_trip(p.pitch_class);
    lemma_decimal(p.octave as nat);
    lemma_decimal(q.octave as nat);
}

proof fn lemma_alternative_injective(p: Pitch, q: Pitch)
    requires
        p.alternative_text() == q.alternative_text(),
    ensures
        p == q,
{
    let s = p.alternative_text();
    lemma_alternative_split(p, s);
    lemma_alternative_split(q, s);
    lemma_pitch_class_round_trip(p.pitch_class);
    lemma_register_word_injective(p.register_level(), q.register_level());
}

/// No text is both the scientific notation of one pitch and the
/// register-word notation of another: a scientific text ends in a digit,
/// a register-word text in a letter or `#`.
pub proof fn lemma_notations_disjoint(p: Pitch, q: Pitch)
    ensures
        p.scientific_text() != q.alternative_text(),
{
    lemma_decimal(p.octave as nat);
    let d = decimal(p.octave as nat);
    assert(is_digit(d[d.len() - 1]));
    assert(p.scientific_text().last() == d.last());
    assert(q.alternative_text().last() == q.pitch_class.spelling().last());
}

/// The scientific notation of `p` reads back as `p` in scientific notation,
/// and as nothing else.
pub proof fn lemma_scientific_round_trip(p: Pitch)
    ensures
        forall|read: PitchWithFormat|
            read.text() == p.scientific_text() <==> read == (PitchWithFormat {
                pitch: p,
                format: PitchFormat::ScientificPitchNotation,
            }),
{
    assert forall|read: PitchWithFormat| read.text() == p.scientific_text() implies read == (
    PitchWithFormat { pitch: p, format: PitchFormat::ScientificPitchNotation }) by {
        match read.format {
            PitchFormat::ScientificPitchNotation => lemma_scientific_injective(read.pitch, p),
            PitchFormat::AlternativePitchNotation => lemma_notations_disjoint(p, read.pitch),
        }
    }
}

/// The register-word notation of `p` reads back as `p` in register-word
/// notation, and as nothing else.
pub proof fn lemma_alternative_round_trip(p: Pitch)
    ensures
        forall|read: PitchWithFormat|
            read.text() == p.alternative_text() <==> read == (PitchWithFormat {
                pitch: p,
                format: PitchFormat::AlternativePitchNotation,
            }),
{
    assert forall|read: PitchWithFormat| read.text() == p.alternative_text() implies read == (
    PitchWithFormat { pitch: p, format: PitchFormat::AlternativePitchNotation }) by {
        match read.format {
            PitchFormat::ScientificPitchNotation => lemma_notations_disjoint(read.pitch, p),
            PitchFormat::AlternativePitchNotation => lemma_alternative_injective(read.pitch, p),
        }
    }
}

/// A, A# and B never need a register below `lowlowlow`, and `lowlowlow`
/// followed by A, A# or B (which would be octave -1) is not the notation of
/// any pitch.
pub proof fn lemma_no_register_below_lowest(p: Pitch, c: PitchClass)
    ensures
        p.pitch_class.starts_next_register() ==> p.register_level() >= 1,
        c.starts_next_register() ==> forall|read: PitchWithFormat|
            read.text() != register_word(0) + c.spelling(),
{
    if c.starts_next_register() {
        let s = register_word(0) + c.spelling();
        assert forall|read: PitchWithFormat| read.text() != s by {
            if read.text() == s {
                match read.format {
                    PitchFormat::ScientificPitchNotation => {
                        lemma_decimal(read.pitch.octave as nat);
                        let d = decimal(read.pitch.octave as nat);
                        assert(is_digit(d[d.len() - 1]));
                        assert(s.last() == d.last());
                        assert(s.last() == c.spelling().last());
                    },
                    PitchFormat::AlternativePitchNotation => {
                        let q = read.pitch;
                        lemma_alternative_split(q, s);
                        assert(s.subrange(s.len() - c.spelling().len(), s.len() as int)
                            =~= c.spelling());
                        assert(s.subrange(0, s.len() - c.spelling().len()) =~= register_word(0));
                        assert(s.last() == c.spelling().last());
                        lemma_pitch_class_round_trip(c);
                        lemma_register_word_injective(q.register_level(), 0);
                    },
                }
            }
        }
    }
}

/// The last character of a notation: a digit for scientific notation, and
/// the class spelling's last character (a capital letter or `#`) for
/// register-word notation, preceded by a capital letter when it is `#`.
proof fn lemma_text_ending(read: PitchWithFormat)
    ensures
        read.text().len() >= 2,
        read.format is ScientificPitchNotation ==> is_digit(read.text().last()),
        read.format is ScientificPitchNotation ==> 'A' <= read.text()[0] <= 'G',
        read.format is AlternativePitchNotation ==> {
            let t = read.text();
            let c = t.last();
            &&& ('A' <= c <= 'G' || c == '#')
            &&& c == '#' ==> 'A' <= t[t.len() - 2] <= 'G'
        },
{
    let p = read.pitch;
    let sp = p.pitch_class.spelling();
    lemma_spelling_shape(p.pitch_class);
    match read.format {
        PitchFormat::ScientificPitchNotation => {
            lemma_decimal(p.octave as nat);
            let d = decimal(p.octave as nat);
            assert(is_digit(d[d.len() - 1]));
            assert(read.text().last() == d.last());
            assert(read.text()[0] == sp[0]);
        },
        PitchFormat::AlternativePitchNotation => {
            let t = read.text();
            let w = register_word(p.register_level());
            assert(t.last() == sp.last());
            if sp.len() == 2 {
                assert(t[t.len() - 2] == sp[0]);
            } else {
                lemma_register_word_nonempty(p.register_level());
            }
        },
    }
}

/// Lower-casing a canonical spelling, or the notation of a pitch in either
/// notation, gives a text that reads as nothing.
pub proof fn lemma_lowercase_rejected(p: PitchClass, read: PitchWithFormat)
    ensures
        forall|q: PitchClass| q.spelling() != lowercase(p.spelling()),
        forall|other: PitchWithFormat| other.text() != lowercase(read.text()),
{
    lemma_spelling_shape(p);
    assert forall|q: PitchClass| q.spelling() != lowercase(p.spelling()) by {
        lemma_spelling_shape(q);
        if q.spelling() == lowercase(p.spelling()) {
            assert(q.spelling()[0] == lower_char(p.spelling()[0]));
        }
    }
    let t = read.text();
    let u = lowercase(t);
    lemma_text_ending(read);
    assert forall|other: PitchWithFormat| other.text() != u by {
        lemma_text_ending(other);
        if other.text() == u {
            let n = t.len() as int;
            assert(u[n - 1] == lower_char(t[n - 1]));
            assert(u[n - 2] == lower_char(t[n - 2]));
            assert(u[0] == lower_char(t[0]));
            assert(other.text()[n - 1] == u[n - 1]);
            assert(other.text()[n - 2] == u[n - 2]);
            assert(other.text()[0] == u[0]);
        }
    }
}

} // verus!
