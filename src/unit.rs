//! The closed set of length units.
use vstd::prelude::*;
use crate::error::{ErrorKind, Metadata as MetadataError};

verus! {

/// Supported units for dimensions.
#[derive(Debug, PartialEq, Eq, Structural, Copy, Clone)]
#[non_exhaustive]
pub enum Unit {
    /// The default font size - usually the height of a character.
    Em,
    /// The height of the character x
    Ex,
    /// Pixels
    Px,
    /// Points (1 / 72 of an inch)
    Pt,
    /// Picas (1 / 6 of an inch)
    Pc,
    /// Centimeters
    Cm,
    /// Millimeters
    Mm,
    /// Inches
    In,
    /// Percent
    Percent,
}

/// `c` is the letter given in its lower-case form `l` and upper-case form `u`.
pub open spec fn is_letter(c: char, l: char, u: char) -> bool {
    c == l || c == u
}

/// The unit spelled `t`, letters matched without regard to case.
pub open spec fn unit_of(t: Seq<char>) -> Option<Unit> {
    if t.len() == 1 && t[0] == '%' {
        Some(Unit::Percent)
    } else if t.len() != 2 {
        None
    } else {
        let (a, b) = (t[0], t[1]);
        if is_letter(a, 'e', 'E') && is_letter(b, 'm', 'M') {
            Some(Unit::Em)
        } else if is_letter(a, 'e', 'E') && is_letter(b, 'x', 'X') {
            Some(Unit::Ex)
        } else if is_letter(a, 'p', 'P') && is_letter(b, 'x', 'X') {
            Some(Unit::Px)
        } else if is_letter(a, 'p', 'P') && is_letter(b, 't', 'T') {
            Some(Unit::Pt)
        } else if is_letter(a, 'p', 'P') && is_letter(b, 'c', 'C') {
            Some(Unit::Pc)
        } else if is_letter(a, 'c', 'C') && is_letter(b, 'm', 'M') {
            Some(Unit::Cm)
        } else if is_letter(a, 'm', 'M') && is_letter(b, 'm', 'M') {
            Some(Unit::Mm)
        } else if is_letter(a, 'i', 'I') && is_letter(b, 'n', 'N') {
            Some(Unit::In)
        } else {
            None
        }
    }
}

/// The description of the error for an unrecognised unit token `t`.
pub open spec fn unknown_unit_message(t: Seq<char>) -> Seq<char> {
    "Unknown unit: "@ + t
}

fn letter(c: char, l: char, u: char) -> (r: bool)
    ensures
        r == is_letter(c, l, u),
{
    c == l || c == u
}

fn unit_of_chars(t: &[char]) -> (r: Option<Unit>)
    ensures
        r == unit_of(t@),
{
    if t.len() == 1 && t[0] == '%' {
        Some(Unit::Percent)
    } else if t.len() != 2 {
        None
    } else {
        let (a, b) = (t[0], t[1]);
        if letter(a, 'e', 'E') && letter(b, 'm', 'M') {
            Some(Unit::Em)
        } else if letter(a, 'e', 'E') && letter(b, 'x', 'X') {
            Some(Unit::Ex)
        } else if letter(a, 'p', 'P') && letter(b, 'x', 'X') {
            Some(Unit::Px)
        } else if letter(a, 'p', 'P') && letter(b, 't', 'T') {
            Some(Unit::Pt)
        } else if letter(a, 'p', 'P') && letter(b, 'c', 'C') {
            Some(Unit::Pc)
        } else if letter(a, 'c', 'C') && letter(b, 'm', 'M') {
            Some(Unit::Cm)
        } else if letter(a, 'm', 'M') && letter(b, 'm', 'M') {
            Some(Unit::Mm)
        } else if letter(a, 'i', 'I') && letter(b, 'n', 'N') {
            Some(Unit::In)
        } else {
            None
        }
    }
}

impl Unit {
    /// Resolves a unit token: one of `em`, `ex`, `px`, `pt`, `pc`, `cm`, `mm`,
    /// `in` in any mix of case, or `%`.
    pub fn try_from(s: &str) -> (r: Result<Unit, MetadataError>)
        ensures
            unit_of(s@) matches Some(u) ==> r == Ok::<Unit, MetadataError>(u),
            unit_of(s@) is None ==> (r matches Err(e) && e.kind == ErrorKind::InvalidLength
                && e.details@ == unknown_unit_message(s@)),
    {
        let chars = crate::text::char_vec(s);
        match unit_of_chars(chars.as_slice()) {
            Some(u) => Ok(u),
            None => {
                let mut details = String::from_str("Unknown unit: ");
                details.append(s);
                Err(MetadataError { kind: ErrorKind::InvalidLength, details })
            },
        }
    }
}

} // verus!
