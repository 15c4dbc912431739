//! The `viewBox` attribute: four numbers separated by whitespace or by a comma
//! and whitespace.
use vstd::prelude::*;
use crate::error::{ErrorKind, Metadata as MetadataError};
use crate::number::{
    is_literal_range, is_number_char, lemma_literal_chars, literal_parts, literal_value,
    Number,
};
use crate::text::{char_vec, decimal, is_space, space, to_decimal};

verus! {

/// The number of consecutive whitespace characters of `s` from position `i` on.
pub open spec fn space_run(s: Seq<char>, i: int) -> nat
    decreases s.len() - i,
{
    if 0 <= i < s.len() && is_space(s[i]) {
        1 + space_run(s, i + 1)
    } else {
        0
    }
}

/// The length of the separator that starts at position `i` of `s`: an optional
/// comma, then as much whitespace as follows, of which there must be some; zero
/// where no separator starts there.
pub open spec fn separator_len(s: Seq<char>, i: int) -> nat {
    if 0 <= i < s.len() && is_space(s[i]) {
        space_run(s, i)
    } else if 0 <= i && i + 1 < s.len() && s[i] == ',' && is_space(s[i + 1]) {
        1 + space_run(s, i + 1)
    } else {
        0
    }
}

/// The pieces of `s` from `start` on, with separators looked for from `i` on,
/// each separator taken where it first starts.
pub open spec fn pieces_from(s: Seq<char>, start: int, i: int) -> Seq<Seq<char>>
    decreases s.len() - i,
    via pieces_from_decreases
{
    if i >= s.len() {
        seq![s.subrange(start, s.len() as int)]
    } else if separator_len(s, i) > 0 {
        let next = i + separator_len(s, i);
        seq![s.subrange(start, i)] + pieces_from(s, next, next)
    } else {
        pieces_from(s, start, i + 1)
    }
}

proof fn lemma_space_run_bound(s: Seq<char>, i: int)
    requires
        0 <= i,
    ensures
        i + space_run(s, i) <= s.len() || space_run(s, i) == 0,
    decreases s.len() - i,
{
    if 0 <= i < s.len() && is_space(s[i]) {
        lemma_space_run_bound(s, i + 1);
    }
}

#[via_fn]
proof fn pieces_from_decreases(s: Seq<char>, start: int, i: int) {
    if 0 <= i < s.len() {
        lemma_space_run_bound(s, i);
        lemma_space_run_bound(s, i + 1);
    }
}

/// The pieces of `s` between its separators; empty pieces included.
pub open spec fn pieces(s: Seq<char>) -> Seq<Seq<char>> {
    pieces_from(s, 0, 0)
}

/// The four values of the `viewBox` text `s`, where it is four numbers.
pub open spec fn view_box_of(s: Seq<char>) -> Option<Seq<(int, int)>> {
    let p = pieces(s);
    if p.len() == 4 && forall|k: int| 0 <= k < 4 ==> (#[trigger] literal_value(p[k])) is Some {
        Some(p.map_values(|t: Seq<char>| literal_value(t)->0))
    } else {
        None
    }
}

/// A separator between numbers: whitespace, optionally after a comma.
pub open spec fn is_separator(sep: Seq<char>) -> bool {
    ||| sep.len() >= 1 && forall|j: int| 0 <= j < sep.len() ==> is_space(#[trigger] sep[j])
    ||| sep.len() >= 2 && sep[0] == ',' && forall|j: int| 1 <= j < sep.len() ==> is_space(
        #[trigger] sep[j],
    )
}

proof fn lemma_space_run_exact(s: Seq<char>, i: int, e: int)
    requires
        0 <= i <= e <= s.len(),
        forall|j: int| i <= j < e ==> is_space(#[trigger] s[j]),
        e == s.len() || !is_space(s[e]),
    ensures
        space_run(s, i) == e - i,
    decreases e - i,
{
    if i < e {
        lemma_space_run_exact(s, i + 1, e);
    }
}

proof fn lemma_space_run_shift(x: Seq<char>, y: Seq<char>, j: int)
    requires
        0 <= j,
    ensures
        space_run(x + y, x.len() + j) == space_run(y, j),
    decreases y.len() - j,
{
    if j < y.len() && is_space(y[j]) {
        lemma_space_run_shift(x, y, j + 1);
    }
}

/// Scanning `x + y` past `x` is scanning `y`.
proof fn lemma_pieces_shift(x: Seq<char>, y: Seq<char>, a: int, b: int)
    requires
        0 <= a <= b <= y.len(),
    ensures
        pieces_from(x + y, x.len() + a, x.len() + b) == pieces_from(y, a, b),
    decreases y.len() - b,
{
    let s = x + y;
    assert(s.subrange(x.len() + a, s.len() as int) =~= y.subrange(a, y.len() as int));
    if b < y.len() {
        lemma_space_run_shift(x, y, b);
        lemma_space_run_shift(x, y, b + 1);
        lemma_space_run_bound(y, b);
        lemma_space_run_bound(y, b + 1);
        assert(s[x.len() + b] == y[b]);
        if b + 1 < y.len() {
            assert(s[x.len() + b + 1] == y[b + 1]);
        }
        assert(separator_len(s, x.len() + b) == separator_len(y, b));
        let l = separator_len(y, b);
        if l > 0 {
            assert(s.subrange(x.len() + a, x.len() + b) =~= y.subrange(a, b));
            lemma_pieces_shift(x, y, b + l, b + l);
        } else {
            lemma_pieces_shift(x, y, a, b + 1);
        }
    }
}

/// No separator starts within `[i, e)`: the scan passes over it.
proof fn lemma_pieces_skip(s: Seq<char>, start: int, i: int, e: int)
    requires
        0 <= i <= e <= s.len(),
        forall|j: int| i <= j < e ==> separator_len(s, j) == 0,
    ensures
        pieces_from(s, start, i) == pieces_from(s, start, e),
    decreases e - i,
{
    if i < e {
        lemma_pieces_skip(s, start, i + 1, e);
    }
}

/// A literal with no separator in it is a single piece.
proof fn lemma_pieces_literal(x: Seq<char>)
    requires
        literal_parts(x) is Some,
    ensures
        pieces(x) == seq![x],
{
    lemma_literal_chars(x);
    assert forall|j: int| 0 <= j < x.len() implies separator_len(x, j) == 0 by {
        assert(is_number_char(x[j]));
    }
    lemma_pieces_skip(x, 0, 0, x.len() as int);
    assert(x.subrange(0, x.len() as int) =~= x);
}

/// A literal, a separator, then text that starts with a literal: the literal is
/// the first piece, and the pieces of the rest follow.
proof fn lemma_pieces_join(x: Seq<char>, sep: Seq<char>, rest: Seq<char>)
    requires
        literal_parts(x) is Some,
        is_separator(sep),
        rest.len() > 0,
        is_number_char(rest[0]),
    ensures
        pieces(x + (sep + rest)) == seq![x] + pieces(rest),
{
    let s = x + (sep + rest);
    let n = x.len() as int;
    lemma_literal_chars(x);
    assert forall|j: int| 0 <= j < n implies separator_len(s, j) == 0 by {
        assert(s[j] == x[j]);
        assert(is_number_char(x[j]));
    }
    lemma_pieces_skip(s, 0, 0, n);
    let e = n + sep.len();
    assert(s[e] == rest[0]);
    if sep[0] == ',' && !is_space(sep[0]) {
        assert forall|j: int| n + 1 <= j < e implies is_space(#[trigger] s[j]) by {
            assert(s[j] == sep[j - n]);
        }
        lemma_space_run_exact(s, n + 1, e);
        assert(s[n + 1] == sep[1]);
    } else {
        assert forall|j: int| n <= j < e implies is_space(#[trigger] s[j]) by {
            assert(s[j] == sep[j - n]);
        }
        lemma_space_run_exact(s, n, e);
    }
    assert(separator_len(s, n) == sep.len());
    assert(s.subrange(0, n) =~= x);
    assert(s =~= (x + sep) + rest);
    lemma_pieces_shift(x + sep, rest, 0, 0);
}

/// Any four literals joined by separators, each some whitespace after an optional
/// comma, read back as a `viewBox` of their four values, in order.
pub proof fn lemma_view_box_of_joined(t: Seq<Seq<char>>, seps: Seq<Seq<char>>)
    requires
        t.len() == 4,
        seps.len() == 3,
        forall|k: int| 0 <= k < 4 ==> (#[trigger] literal_parts(t[k])) is Some,
        forall|k: int| 0 <= k < 3 ==> is_separator(#[trigger] seps[k]),
    ensures
        view_box_of(t[0] + seps[0] + t[1] + seps[1] + t[2] + seps[2] + t[3]) == Some(
            t.map_values(|x: Seq<char>| literal_value(x)->0),
        ),
{
    let s = t[0] + seps[0] + t[1] + seps[1] + t[2] + seps[2] + t[3];
    let r3 = t[3];
    let r2 = t[2] + (seps[2] + r3);
    let r1 = t[1] + (seps[1] + r2);
    assert(s =~= t[0] + (seps[0] + r1));
    assert(literal_parts(t[0]) is Some);
    assert(literal_parts(t[1]) is Some);
    assert(literal_parts(t[2]) is Some);
    assert(literal_parts(t[3]) is Some);
    assert(is_separator(seps[0]));
    assert(is_separator(seps[1]));
    assert(is_separator(seps[2]));
    lemma_literal_chars(t[1]);
    lemma_literal_chars(t[2]);
    lemma_literal_chars(t[3]);
    assert(r1[0] == t[1][0]);
    assert(r2[0] == t[2][0]);
    lemma_pieces_literal(r3);
    lemma_pieces_join(t[2], seps[2], r3);
    lemma_pieces_join(t[1], seps[1], r2);
    lemma_pieces_join(t[0], seps[0], r1);
    assert(pieces(s) =~= t);
}

/// The description of the error for a `viewBox` of `n` elements.
pub open spec fn element_count_message(n: nat) -> Seq<char> {
    "Invalid view_box: Expected four elements, got "@ + decimal(n)
}

/// The description of the error for an element that is not a number.
pub open spec fn not_a_float_message() -> Seq<char> {
    "Cannot convert string to float"@
}

/// Specifies the dimensions of an SVG image.
#[derive(Debug, PartialEq, Eq, Structural, Copy, Clone)]
pub struct ViewBox {
    /// The x coordinate of the left edge of the viewBox
    pub min_x: Number,
    /// The y coordinate of the top edge of the viewBox
    pub min_y: Number,
    /// The width of the viewBox
    pub width: Number,
    /// The height of the viewBox
    pub height: Number,
}

impl View for ViewBox {
    type V = Seq<(int, int)>;

    open spec fn view(&self) -> Seq<(int, int)> {
        seq![self.min_x@, self.min_y@, self.width@, self.height@]
    }
}

fn space_run_at(t: &[char], i: usize) -> (r: usize)
    requires
        i <= t@.len(),
    ensures
        r == space_run(t@, i as int),
        i + r <= t@.len(),
{
    let mut j: usize = i;
    while j < t.len() && space(t[j])
        invariant
            i <= j <= t@.len(),
            space_run(t@, i as int) == (j - i) + space_run(t@, j as int),
        decreases t@.len() - j,
    {
        j = j + 1;
    }
    j - i
}

fn separator_at(t: &[char], i: usize) -> (r: usize)
    requires
        i < t@.len(),
    ensures
        r == separator_len(t@, i as int),
        i + r <= t@.len(),
{
    if space(t[i]) {
        space_run_at(t, i)
    } else if i + 1 < t.len() && t[i] == ',' && space(t[i + 1]) {
        1 + space_run_at(t, i + 1)
    } else {
        0
    }
}

/// The text of each span of `t`.
pub open spec fn spans_text(t: Seq<char>, spans: Seq<(usize, usize)>) -> Seq<Seq<char>> {
    spans.map_values(|p: (usize, usize)| t.subrange(p.0 as int, p.1 as int))
}

/// The start and end of each piece of `t`.
fn split_pieces(t: &[char]) -> (r: Vec<(usize, usize)>)
    ensures
        spans_text(t@, r@) == pieces(t@),
        forall|k: int| 0 <= k < r@.len() ==> (#[trigger] r@[k]).0 <= r@[k].1 <= t@.len(),
{
    let n = t.len();
    let mut out: Vec<(usize, usize)> = Vec::new();
    let mut start: usize = 0;
    let mut i: usize = 0;
    while i < n
        invariant
            n == t@.len(),
            start <= i <= n,
            pieces(t@) == spans_text(t@, out@) + pieces_from(t@, start as int, i as int),
            forall|k: int| 0 <= k < out@.len() ==> (#[trigger] out@[k]).0 <= out@[k].1 <= n,
        decreases n - i,
    {
        let k = separator_at(t, i);
        if k > 0 {
            let ghost before = spans_text(t@, out@);
            let ghost piece = t@.subrange(start as int, i as int);
            let ghost rest = pieces_from(t@, (i + k) as int, (i + k) as int);
            out.push((start, i));
            assert(spans_text(t@, out@) =~= before.push(piece));
            assert(before + (seq![piece] + rest) =~= before.push(piece) + rest);
            i = i + k;
            start = i;
        } else {
            i = i + 1;
        }
    }
    let ghost before = spans_text(t@, out@);
    out.push((start, n));
    assert(spans_text(t@, out@) =~= before.push(t@.subrange(start as int, n as int)));
    assert(before + seq![t@.subrange(start as int, n as int)] =~= before.push(
        t@.subrange(start as int, n as int),
    ));
    out
}

impl ViewBox {
    /// Reads a `viewBox` value: exactly four numbers, separated by whitespace or
    /// by a comma followed by whitespace.
    pub fn try_from(s: &str) -> (r: Result<ViewBox, MetadataError>)
        ensures
            view_box_of(s@) matches Some(v) ==> (r matches Ok(b) && b@ == v),
            r matches Ok(b) ==> forall|k: int| 0 <= k < 4 ==> is_literal_range(#[trigger] b@[k]),
            pieces(s@).len() != 4 ==> (r matches Err(e) && e.kind == ErrorKind::InvalidViewBox
                && e.details@ == element_count_message(pieces(s@).len())),
            pieces(s@).len() == 4 && view_box_of(s@) is None ==> (r matches Err(e) && e.kind
                == ErrorKind::InvalidViewBox && e.details@ == not_a_float_message()),
    {
        let chars = char_vec(s);
        let t = chars.as_slice();
        let spans = split_pieces(t);
        if spans.len() != 4 {
            let mut details = String::from_str("Invalid view_box: Expected four elements, got ");
            let count = to_decimal(spans.len());
            details.append(count.as_str());
            return Err(MetadataError { kind: ErrorKind::InvalidViewBox, details });
        }
        let ghost p = pieces(s@);
        let mut values: Vec<Number> = Vec::new();
        for k in 0..4
            invariant
                spans@.len() == 4,
                p == pieces(t@),
                t@ == s@,
                p.len() == 4,
                spans_text(t@, spans@) == p,
                forall|j: int|
                    0 <= j < spans@.len() ==> (#[trigger] spans@[j]).0 <= spans@[j].1 <= t@.len(),
                values@.len() == k,
                forall|j: int| 0 <= j < k ==> literal_value(p[j]) == Some(#[trigger] values@[j]@),
                forall|j: int| 0 <= j < k ==> is_literal_range(#[trigger] values@[j]@),
        {
            let (a, b) = spans[k];
            assert(t@.subrange(a as int, b as int) == p[k as int]);
            match Number::from_chars(&t[a..b]) {
                Some(v) => values.push(v),
                None => {
                    proof {
                        assert(literal_value(p[k as int]) is None);
                    }
                    return Err(
                        MetadataError {
                            kind: ErrorKind::InvalidViewBox,
                            details: String::from_str("Cannot convert string to float"),
                        },
                    );
                },
            }
        }
        let b = ViewBox { min_x: values[0], min_y: values[1], width: values[2], height: values[3] };
        proof {
            assert(b@ =~= p.map_values(|t: Seq<char>| literal_value(t)->0));
        }
        Ok(b)
    }
}

} // verus!
