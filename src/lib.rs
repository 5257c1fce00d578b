//! Conversion between scientific pitch notation ("C#4") and the register-word
//! notation ("mid2C#").
pub mod error;
pub mod laws;
pub mod numeral;
pub mod pitch;
pub mod pitch_class;
pub mod register;
mod text;

pub use error::{ParsePitchClassError, ParsePitchError};
pub use pitch::{
    parse_alternative_pitch_notation, parse_notation, parse_scientific_pitch_notation,
    AlternativePitchNotation, Pitch, PitchFormat, PitchWithFormat, ScientificPitchNotation,
};
pub use pitch_class::{parse_pitch_class, PitchClass};
