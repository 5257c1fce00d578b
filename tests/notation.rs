use pitch_notation::{
    parse_alternative_pitch_notation, parse_notation, parse_pitch_class,
    parse_scientific_pitch_notation, ParsePitchClassError, ParsePitchError, Pitch, PitchClass,
    PitchFormat, PitchWithFormat,
};
use regex::Regex;

const ALL_CLASSES: [PitchClass; 12] = [
    PitchClass::C,
    PitchClass::CSharp,
    PitchClass::D,
    PitchClass::DSharp,
    PitchClass::E,
    PitchClass::F,
    PitchClass::FSharp,
    PitchClass::G,
    PitchClass::GSharp,
    PitchClass::A,
    PitchClass::ASharp,
    PitchClass::B,
];

fn all_pitches() -> Vec<Pitch> {
    let mut v = Vec::new();
    for octave in 0..=255u8 {
        for pitch_class in ALL_CLASSES {
            v.push(Pitch { octave, pitch_class });
        }
    }
    v
}

fn pitch(octave: u8, pitch_class: PitchClass) -> Pitch {
    Pitch { octave, pitch_class }
}

#[test]
fn class_round_trip_for_every_class() {
    for p in ALL_CLASSES {
        assert_eq!(Ok(p), parse_pitch_class(p.as_str()));
        assert_eq!(p.as_str(), p.to_string());
        assert_eq!(Ok(p), p.as_str().parse::<PitchClass>());
    }
}

#[test]
fn class_rejects_other_spellings() {
    for s in ["", "H", "c", "C##", "Db", "E#", "B#", " C", "C ", "CC", "#"] {
        assert_eq!(Err(ParsePitchClassError), parse_pitch_class(s), "{s:?}");
    }
}

#[test]
fn scientific_round_trip_for_every_pitch() {
    for p in all_pitches() {
        let text = p.scientific_pitch_notation().to_string();
        let expected = PitchWithFormat {
            pitch: p,
            format: PitchFormat::ScientificPitchNotation,
        };
        assert_eq!(Ok(expected), parse_notation(&text), "{text}");
    }
}

#[test]
fn alternative_round_trip_for_every_pitch() {
    for p in all_pitches() {
        let text = p.alternative_pitch_notation().to_string();
        let expected = PitchWithFormat {
            pitch: p,
            format: PitchFormat::AlternativePitchNotation,
        };
        assert_eq!(Ok(expected), parse_notation(&text), "{text}");
    }
}

#[test]
fn lowercased_notation_is_rejected() {
    assert_eq!(Err(ParsePitchError), parse_notation("c4"));
    assert_eq!(Err(ParsePitchError), parse_notation("hic"));
    for p in all_pitches() {
        let sci = p.scientific_pitch_notation().to_string().to_lowercase();
        let alt = p.alternative_pitch_notation().to_string().to_lowercase();
        assert_eq!(Err(ParsePitchError), parse_notation(&sci), "{sci}");
        assert_eq!(Err(ParsePitchError), parse_notation(&alt), "{alt}");
    }
    for p in ALL_CLASSES {
        assert_eq!(
            Err(ParsePitchClassError),
            parse_pitch_class(&p.as_str().to_lowercase())
        );
    }
}

#[test]
fn octave_ceiling() {
    assert_eq!(Err(ParsePitchError), parse_notation("C256"));
    assert_eq!(Err(ParsePitchError), parse_notation("C1000"));
    let read = parse_notation("C255").unwrap();
    assert_eq!(pitch(255, PitchClass::C), read.pitch);
    assert_eq!(PitchFormat::ScientificPitchNotation, read.format);
    // One "hi" more than octave 255 needs.
    let too_high = format!("{}C", "hi".repeat(252));
    assert_eq!(Err(ParsePitchError), parse_notation(&too_high));
    let too_high_b = format!("{}B", "hi".repeat(253));
    assert_eq!(Err(ParsePitchError), parse_notation(&too_high_b));
}

#[test]
fn register_correction_cases() {
    let cases = [
        ("C0", "lowlowlowC", pitch(0, PitchClass::C)),
        ("A0", "lowlowA", pitch(0, PitchClass::A)),
        ("A4", "hiA", pitch(4, PitchClass::A)),
        ("C4", "mid2C", pitch(4, PitchClass::C)),
        ("A5", "hihiA", pitch(5, PitchClass::A)),
        ("B2", "mid1B", pitch(2, PitchClass::B)),
        ("G#4", "mid2G#", pitch(4, PitchClass::GSharp)),
        ("A#1", "lowA#", pitch(1, PitchClass::ASharp)),
    ];
    for (sci, alt, p) in cases {
        assert_eq!(sci, p.scientific_pitch_notation().to_string());
        assert_eq!(alt, p.alternative_pitch_notation().to_string());
        assert_eq!(Ok(p), parse_scientific_pitch_notation(sci));
        assert_eq!(Ok(p), parse_alternative_pitch_notation(alt));
        let from_sci = parse_notation(sci).unwrap();
        assert_eq!(PitchFormat::ScientificPitchNotation, from_sci.format);
        assert_eq!(alt, from_sci.pitch.alternative_pitch_notation().to_string());
        let from_alt = parse_notation(alt).unwrap();
        assert_eq!(PitchFormat::AlternativePitchNotation, from_alt.format);
        assert_eq!(sci, from_alt.pitch.scientific_pitch_notation().to_string());
    }
}

#[test]
fn no_register_below_lowest() {
    for s in ["lowlowlowA", "lowlowlowA#", "lowlowlowB"] {
        assert_eq!(Err(ParsePitchError), parse_alternative_pitch_notation(s));
        assert_eq!(Err(ParsePitchError), parse_notation(s));
    }
    for p in all_pitches() {
        assert!(!p.alternative_pitch_notation().to_string().starts_with("lowlowlowA"));
        assert!(!p.alternative_pitch_notation().to_string().starts_with("lowlowlowB"));
    }
}

#[test]
fn grammars_are_disjoint() {
    for p in all_pitches() {
        let sci = p.scientific_pitch_notation().to_string();
        let alt = p.alternative_pitch_notation().to_string();
        assert_eq!(Err(ParsePitchError), parse_alternative_pitch_notation(&sci));
        assert_eq!(Err(ParsePitchError), parse_scientific_pitch_notation(&alt));
    }
}

#[test]
fn malformed_notation_is_rejected() {
    let inputs = [
        "", "C", "4", "C01", "C00", "+C4", "C+4", "C-1", "B-1", " C4", "C4 ", "C4\n", "E#4",
        "H4", "C٣", "hi", "hiH", "hiE#", "midA", "mid3C", "mid12C", "hihC", "ihC", "lowlowlowlowC",
        "LowC", "hiC4", "C4hi", "mid2", "#",
    ];
    for s in inputs {
        assert_eq!(Err(ParsePitchError), parse_notation(s), "{s:?}");
        assert_eq!(Err(ParsePitchError), parse_scientific_pitch_notation(s), "{s:?}");
        assert_eq!(Err(ParsePitchError), parse_alternative_pitch_notation(s), "{s:?}");
    }
}

#[test]
fn decimal_rendering_of_octaves() {
    assert_eq!("C#0", pitch(0, PitchClass::CSharp).to_string());
    assert_eq!("D9", pitch(9, PitchClass::D).to_string());
    assert_eq!("E10", pitch(10, PitchClass::E).to_string());
    assert_eq!("F99", pitch(99, PitchClass::F).to_string());
    assert_eq!("G100", pitch(100, PitchClass::G).to_string());
    assert_eq!("B255", pitch(255, PitchClass::B).to_string());
}

#[test]
fn register_words_at_the_top() {
    let top = pitch(255, PitchClass::B).alternative_pitch_notation().to_string();
    assert_eq!(format!("{}B", "hi".repeat(252)), top);
    let top_g = pitch(255, PitchClass::G).alternative_pitch_notation().to_string();
    assert_eq!(format!("{}G", "hi".repeat(251)), top_g);
}

#[test]
fn conversions_and_from_str() {
    let read: PitchWithFormat = "C#4".parse().unwrap();
    assert_eq!(pitch(4, PitchClass::CSharp), Pitch::from(read));
    let p: Pitch = "hiC".parse().unwrap();
    assert_eq!(pitch(5, PitchClass::C), p);
    assert_eq!(Err(ParsePitchError), "nonsense".parse::<Pitch>());
    assert_eq!(ParsePitchError, ParsePitchError::from(ParsePitchClassError));
    assert!(pitch(3, PitchClass::B) < pitch(4, PitchClass::C));
    assert!(PitchClass::C < PitchClass::CSharp);
}

/// The register-word grammar stated independently as a regular expression,
/// with the octave correction failing below the lowest register.
fn regex_alternative(s: &str) -> Option<Pitch> {
    let re = Regex::new(r"^(?<octave>low|lowlow|lowlowlow|mid[12]|(hi)+)(?<pitch_class>[A-G][#]?)$")
        .unwrap();
    let caps = re.captures(s)?;
    let pitch_class = parse_pitch_class(caps.name("pitch_class").unwrap().as_str()).ok()?;
    let base: usize = match caps.name("octave").unwrap().as_str() {
        "lowlowlow" => 0,
        "lowlow" => 1,
        "low" => 2,
        "mid1" => 3,
        "mid2" => 4,
        w => w.len() / 2 + 4,
    };
    let octave = match pitch_class {
        PitchClass::A | PitchClass::ASharp | PitchClass::B => base.checked_sub(1)?,
        _ => base,
    };
    let octave = u8::try_from(octave).ok()?;
    Some(Pitch { octave, pitch_class })
}

/// The scientific grammar stated as a regular expression.
fn regex_scientific(s: &str) -> Option<Pitch> {
    let re = Regex::new(r"^(?<pitch_class>[A-G][#]?)(?<octave>0|([1-9]\d*))$").unwrap();
    let caps = re.captures(s)?;
    let octave = caps.name("octave").unwrap().as_str().parse::<u8>().ok()?;
    let pitch_class = parse_pitch_class(caps.name("pitch_class").unwrap().as_str()).ok()?;
    Some(Pitch { octave, pitch_class })
}

#[test]
fn grammars_agree_with_regular_expressions() {
    let heads = [
        "", "low", "lowlow", "lowlowlow", "lowlowlowlow", "mid", "mid1", "mid2", "mid3", "hi",
        "hihi", "hih", "ih", "hihihi", "Low", "HI", "C", "A#", "1",
    ];
    let middles = [
        "", "C", "C#", "D", "E", "E#", "B", "B#", "A", "A#", "H", "c", "#", "##", "C##",
    ];
    let tails = ["", "0", "1", "00", "01", "10", "255", "256", "999", "-1", "+1", "٣", " "];
    for h in heads {
        for m in middles {
            for t in tails {
                let s = format!("{h}{m}{t}");
                assert_eq!(regex_alternative(&s), parse_alternative_pitch_notation(&s).ok(), "{s:?}");
                assert_eq!(regex_scientific(&s), parse_scientific_pitch_notation(&s).ok(), "{s:?}");
            }
        }
    }
}
