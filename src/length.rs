//! Lengths: a magnitude with an optional unit, as in `width` and `height`.
use vstd::prelude::*;
use crate::error::{ErrorKind, Metadata as MetadataError};
use crate::number::{
    digit_run, digits_end, is_literal_range, literal_parts, literal_value, sign_len, Number,
};
use crate::text::{char_vec, digit, is_digit};
use crate::unit::{unit_of, unknown_unit_message, Unit};

verus! {

/// The length of the magnitude that `s` starts with, `[+-]? digits ('.' digits?)?`
/// with at least one digit before any point; zero where `s` starts with none.
pub open spec fn magnitude_len(s: Seq<char>) -> int {
    let a = sign_len(s);
    let n = digit_run(s, a);
    if n == 0 {
        0
    } else if a + n < s.len() && s[a + n] == '.' {
        a + n + 1 + digit_run(s, a + n + 1)
    } else {
        a + n
    }
}

/// The unit token at the start of `r`, the text after a magnitude: nothing, a
/// lone `%`, or one or two characters that are not digits.
pub open spec fn unit_token(r: Seq<char>) -> Seq<char> {
    if r.len() == 0 {
        r
    } else if r[0] == '%' {
        r.take(1)
    } else if r.len() >= 2 && !is_digit(r[1]) {
        r.take(2)
    } else {
        r.take(1)
    }
}

/// The magnitude and unit of the length text `s`, where it has them: a magnitude,
/// read as a literal, then no unit (meaning `Em`) or a known one.
pub open spec fn length_of(s: Seq<char>) -> Option<((int, int), Unit)> {
    let k = magnitude_len(s);
    if k == 0 {
        None
    } else {
        let v = literal_value(s.take(k))->0;
        let u = unit_token(s.skip(k));
        if u.len() == 0 {
            Some((v, Unit::Em))
        } else {
            match unit_of(u) {
                Some(x) => Some((v, x)),
                None => None,
            }
        }
    }
}

proof fn lemma_digit_run_take(s: Seq<char>, k: int, i: int)
    requires
        0 <= i,
        i + digit_run(s, i) <= k <= s.len(),
    ensures
        digit_run(s.take(k), i) == digit_run(s, i),
    decreases s.len() - i,
{
    if i < s.len() && is_digit(s[i]) {
        lemma_digit_run_take(s, k, i + 1);
    }
}

/// The magnitude that a length starts with is a literal.
pub proof fn lemma_magnitude_literal(s: Seq<char>)
    requires
        magnitude_len(s) > 0,
    ensures
        literal_parts(s.take(magnitude_len(s))) is Some,
        literal_value(s.take(magnitude_len(s))) is Some,
{
    let k = magnitude_len(s);
    let t = s.take(k);
    let a = sign_len(s);
    let n = digit_run(s, a);
    crate::number::lemma_digit_run_bound(s, a);
    if a + n < s.len() && s[a + n] == '.' {
        crate::number::lemma_digit_run_bound(s, a + n + 1);
    }
    assert(t.len() > 0 && t[0] == s[0]);
    assert(sign_len(t) == a);
    lemma_digit_run_take(s, k, a);
    if a + n < s.len() && s[a + n] == '.' {
        lemma_digit_run_take(s, k, a + n + 1);
        assert(t[a + n] == '.');
    }
}

/// The description of the error for a length without a magnitude.
pub open spec fn no_magnitude_message() -> Seq<char> {
    "Cannot read dimensions"@
}

/// The error, if any, that reading the length text `s` gives, as its description.
pub open spec fn length_error(s: Seq<char>) -> Option<Seq<char>> {
    let k = magnitude_len(s);
    if k == 0 {
        Some(no_magnitude_message())
    } else {
        let u = unit_token(s.skip(k));
        if u.len() != 0 && unit_of(u) is None {
            Some(unknown_unit_message(u))
        } else {
            None
        }
    }
}

fn magnitude_end(t: &[char]) -> (r: usize)
    ensures
        r == magnitude_len(t@),
        r <= t@.len(),
{
    let n = t.len();
    let a: usize = if n > 0 && (t[0] == '+' || t[0] == '-') {
        1
    } else {
        0
    };
    let p = digits_end(t, a);
    if p == a {
        0
    } else if p < n && t[p] == '.' {
        digits_end(t, p + 1)
    } else {
        p
    }
}

fn unit_len(t: &[char], k: usize) -> (r: usize)
    requires
        k <= t@.len(),
    ensures
        k + r <= t@.len(),
        unit_token(t@.skip(k as int)) == t@.subrange(k as int, k + r),
{
    let n = t.len();
    let len: usize = if k == n {
        0
    } else if t[k] == '%' {
        1
    } else if k + 1 < n && !digit(t[k + 1]) {
        2
    } else {
        1
    };
    assert(unit_token(t@.skip(k as int)) =~= t@.subrange(k as int, k + len));
    len
}

/// Parse a dimension string and return the value and unit.
pub fn parse_dimension(s: &str) -> (r: Result<(Number, Unit), MetadataError>)
    ensures
        length_of(s@) matches Some(l) ==> (r matches Ok(d) && d.0@ == l.0 && d.1 == l.1),
        r matches Ok(d) ==> is_literal_range(d.0@),
        length_of(s@) is None <==> length_error(s@) is Some,
        length_error(s@) matches Some(m) ==> (r matches Err(e) && e.kind == ErrorKind::InvalidLength
            && e.details@ == m),
{
    let chars = char_vec(s);
    let t = chars.as_slice();
    let k = magnitude_end(t);
    if k == 0 {
        return Err(MetadataError::new(ErrorKind::InvalidLength, "Cannot read dimensions"));
    }
    assert(t@.subrange(0, k as int) =~= s@.take(k as int));
    proof {
        lemma_magnitude_literal(s@);
    }
    let magnitude = match Number::from_chars(&t[0..k]) {
        Some(v) => v,
        None => {
            return Err(MetadataError::new(ErrorKind::InvalidLength, "Cannot convert string to float"));
        },
    };
    let len = unit_len(t, k);
    if len == 0 {
        return Ok((magnitude, Unit::Em));
    }
    match Unit::try_from(s.substring_char(k, k + len)) {
        Ok(u) => Ok((magnitude, u)),
        Err(e) => Err(e),
    }
}

/// Specifies the width of an SVG image.
#[derive(Debug, PartialEq, Eq, Structural, Copy, Clone)]
pub struct Width {
    /// The width of the image
    pub width: Number,
    /// The unit of the width
    pub unit: Unit,
}

impl Width {
    /// Reads a width: a magnitude, then an optional unit, `Em` where none is given.
    pub fn try_from(s: &str) -> (r: Result<Width, MetadataError>)
        ensures
            length_of(s@) matches Some(l) ==> (r matches Ok(w) && w.width@ == l.0 && w.unit == l.1),
            r matches Ok(w) ==> is_literal_range(w.width@),
            length_error(s@) matches Some(m) ==> (r matches Err(e) && e.kind
                == ErrorKind::InvalidLength && e.details@ == m),
    {
        let (width, unit) = parse_dimension(s)?;
        Ok(Width { width, unit })
    }
}

/// Specifies the height of an SVG image.
#[derive(Debug, PartialEq, Eq, Structural, Copy, Clone)]
pub struct Height {
    /// The height of the image
    pub height: Number,
    /// The unit of the height
    pub unit: Unit,
}

impl Height {
    /// Reads a height: a magnitude, then an optional unit, `Em` where none is given.
    pub fn try_from(s: &str) -> (r: Result<Height, MetadataError>)
        ensures
            length_of(s@) matches Some(l) ==> (r matches Ok(h) && h.height@ == l.0 && h.unit == l.1),
            r matches Ok(h) ==> is_literal_range(h.height@),
            length_error(s@) matches Some(m) ==> (r matches Err(e) && e.kind
                == ErrorKind::InvalidLength && e.details@ == m),
    {
        let (height, unit) = parse_dimension(s)?;
        Ok(Height { height, unit })
    }
}

} // verus!
