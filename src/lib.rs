//! Reads the presentational metadata of an SVG document: the root element's
//! `viewBox` rectangle and its `width` and `height` lengths with their units.
//!
//! Magnitudes are decimals ([`Number`]) of up to 18 significant digits, read
//! with rounding half up beyond that; a value that is malformed is left out
//! rather than failing the whole document.

pub mod error;
pub mod length;
pub mod number;
pub mod text;
pub mod unit;
pub mod view_box;
pub mod xml;

use vstd::prelude::*;

pub use error::{ErrorKind, Metadata as MetadataError};
pub use length::{Height, Width};
pub use number::Number;
pub use unit::Unit;
pub use view_box::ViewBox;

use length::length_of;
use number::{can_scale, is_literal_range, lemma_literal_range_scales, percent_of};
use view_box::view_box_of;
use xml::{root_attribute_of, root_attributes, xml_accepts, xml_error_text};

verus! {

impl View for Width {
    type V = ((int, int), Unit);

    open spec fn view(&self) -> ((int, int), Unit) {
        (self.width@, self.unit)
    }
}

impl View for Height {
    type V = ((int, int), Unit);

    open spec fn view(&self) -> ((int, int), Unit) {
        (self.height@, self.unit)
    }
}

/// What an optional `viewBox` attribute text gives.
pub open spec fn view_box_attribute(a: Option<Seq<char>>) -> Option<Seq<(int, int)>> {
    match a {
        Some(v) => view_box_of(v),
        None => None,
    }
}

/// What an optional `width` or `height` attribute text gives.
pub open spec fn length_attribute(a: Option<Seq<char>>) -> Option<((int, int), Unit)> {
    match a {
        Some(v) => length_of(v),
        None => None,
    }
}

/// The text of an optional string slice.
pub open spec fn str_text(a: Option<&str>) -> Option<Seq<char>> {
    match a {
        Some(v) => Some(v@),
        None => None,
    }
}

/// A length resolved against a reference: a percentage of the reference where
/// the length is in percent and a reference is there, else the magnitude itself.
pub open spec fn resolved(length: Option<((int, int), Unit)>, reference: Option<(int, int)>) -> Option<
    (int, int),
> {
    match length {
        None => None,
        Some((v, u)) => if u == Unit::Percent && reference is Some {
            Some(percent_of(v, reference->0))
        } else {
            Some(v)
        },
    }
}

/// Contains all metadata that was extracted from an SVG image.
#[derive(Debug, PartialEq, Eq, Structural, Copy, Clone)]
pub struct Metadata {
    /// The viewBox of the SVG image
    /// A viewBox is a rectangle that defines the dimensions of the image.
    /// For more information see: <https://developer.mozilla.org/en-US/docs/Web/SVG/Attribute/viewBox>
    pub view_box: Option<ViewBox>,
    /// The width of the SVG image
    pub width: Option<Width>,
    /// The height of the SVG image
    pub height: Option<Height>,
}

impl Metadata {
    /// The `viewBox`, as values.
    pub open spec fn view_box_model(self) -> Option<Seq<(int, int)>> {
        match self.view_box {
            Some(b) => Some(b@),
            None => None,
        }
    }

    /// The width, as a value and a unit.
    pub open spec fn width_model(self) -> Option<((int, int), Unit)> {
        match self.width {
            Some(w) => Some(w@),
            None => None,
        }
    }

    /// The height, as a value and a unit.
    pub open spec fn height_model(self) -> Option<((int, int), Unit)> {
        match self.height {
            Some(h) => Some(h@),
            None => None,
        }
    }

    /// The width of the `viewBox`, if there is one.
    pub open spec fn reference_width(self) -> Option<(int, int)> {
        match self.view_box {
            Some(b) => Some(b.width@),
            None => None,
        }
    }

    /// The height of the `viewBox`, if there is one.
    pub open spec fn reference_height(self) -> Option<(int, int)> {
        match self.view_box {
            Some(b) => Some(b.height@),
            None => None,
        }
    }

    /// The metadata of the attribute texts `view_box`, `width` and `height`: each
    /// field what its text gives, absent where the text is absent or malformed.
    pub open spec fn is_read_from(
        self,
        view_box: Option<Seq<char>>,
        width: Option<Seq<char>>,
        height: Option<Seq<char>>,
    ) -> bool {
        &&& self.view_box_model() == view_box_attribute(view_box)
        &&& self.width_model() == length_attribute(width)
        &&& self.height_model() == length_attribute(height)
    }

    /// The metadata of the root element of the document `text`.
    pub open spec fn describes(self, text: Seq<char>) -> bool {
        self.is_read_from(
            root_attribute_of(text, "viewBox"@),
            root_attribute_of(text, "width"@),
            root_attribute_of(text, "height"@),
        )
    }

    /// The percentages of width and height can be resolved against the `viewBox`
    /// within the ranges of `Number`.
    pub open spec fn is_resolvable(self) -> bool {
        &&& self.width is Some && self.width->0.unit == Unit::Percent && self.view_box is Some
            ==> can_scale(self.width->0.width@, self.view_box->0.width@)
        &&& self.height is Some && self.height->0.unit == Unit::Percent && self.view_box is Some
            ==> can_scale(self.height->0.height@, self.view_box->0.height@)
    }

    /// Assembles the metadata from the root element's attribute texts; a text
    /// that is malformed leaves its field absent.
    pub fn from_attributes(view_box: Option<&str>, width: Option<&str>, height: Option<&str>) -> (r:
        Metadata)
        ensures
            r.is_read_from(str_text(view_box), str_text(width), str_text(height)),
            r.is_resolvable(),
    {
        let vb = match view_box {
            Some(val) => ViewBox::try_from(val).ok(),
            None => None,
        };
        let w = match width {
            Some(val) => Width::try_from(val).ok(),
            None => None,
        };
        let h = match height {
            Some(val) => Height::try_from(val).ok(),
            None => None,
        };
        let r = Metadata { view_box: vb, width: w, height: h };
        proof {
            if let Some(b) = r.view_box {
                assert(is_literal_range(b@[2]) && is_literal_range(b@[3]));
                if let Some(x) = r.width {
                    lemma_literal_range_scales(x.width@, b.width@);
                }
                if let Some(x) = r.height {
                    lemma_literal_range_scales(x.height@, b.height@);
                }
            }
        }
        r
    }
}

/// The value of an optional number.
pub open spec fn number_value(n: Option<Number>) -> Option<(int, int)> {
    match n {
        Some(v) => Some(v@),
        None => None,
    }
}

fn as_str(v: &Option<String>) -> (r: Option<&str>)
    ensures
        str_text(r) == xml::text_of(*v),
{
    match v {
        Some(s) => Some(s.as_str()),
        None => None,
    }
}

impl Metadata {
    /// Parse SVG data and extract metadata from it: it fails only where the text
    /// is not an XML document; each attribute of the root element that is
    /// absent or malformed leaves its field absent.
    pub fn parse(input: &str) -> (r: Result<Metadata, MetadataError>)
        ensures
            r is Ok <==> xml_accepts(input@),
            r matches Ok(m) ==> m.describes(input@) && m.is_resolvable(),
            r matches Err(e) ==> e.kind == ErrorKind::MalformedDocument && e.details@
                == xml_error_text(input@),
    {
        let names: [&str; 3] = ["viewBox", "width", "height"];
        match root_attributes(input, names.as_slice()) {
            Err(message) => Err(MetadataError { kind: ErrorKind::MalformedDocument, details: message }),
            Ok(values) => {
                let ghost texts = values@;
                assert(xml::text_of(texts[0]) == root_attribute_of(input@, "viewBox"@));
                assert(xml::text_of(texts[1]) == root_attribute_of(input@, "width"@));
                assert(xml::text_of(texts[2]) == root_attribute_of(input@, "height"@));
                Ok(Self::from_attributes(as_str(&values[0]), as_str(&values[1]), as_str(&values[2])))
            },
        }
    }

    /// The width: if it is in percent and there is a `viewBox`, that percentage
    /// of the `viewBox` width; else the magnitude as it stands.
    pub fn width(&self) -> (r: Option<Number>)
        requires
            self.is_resolvable(),
        ensures
            number_value(r) == resolved(self.width_model(), self.reference_width()),
    {
        let width = match self.width {
            Some(w) => w,
            None => {
                return None;
            },
        };
        if width.unit == Unit::Percent {
            if let Some(view_box) = self.view_box {
                return Some(width.width.percent_of(&view_box.width));
            }
        }
        Some(width.width)
    }

    /// The height: if it is in percent and there is a `viewBox`, that percentage
    /// of the `viewBox` height; else the magnitude as it stands.
    pub fn height(&self) -> (r: Option<Number>)
        requires
            self.is_resolvable(),
        ensures
            number_value(r) == resolved(self.height_model(), self.reference_height()),
    {
        let height = match self.height {
            Some(h) => h,
            None => {
                return None;
            },
        };
        if height.unit == Unit::Percent {
            if let Some(view_box) = self.view_box {
                return Some(height.height.percent_of(&view_box.height));
            }
        }
        Some(height.height)
    }

    /// Whether the percentages of width and height can be resolved.
    pub fn resolvable(&self) -> (r: bool)
        ensures
            r == self.is_resolvable(),
    {
        let width_ok = match (self.width, self.view_box) {
            (Some(w), Some(b)) => w.unit != Unit::Percent || w.width.can_scale(&b.width),
            _ => true,
        };
        let height_ok = match (self.height, self.view_box) {
            (Some(h), Some(b)) => h.unit != Unit::Percent || h.height.can_scale(&b.height),
            _ => true,
        };
        width_ok && height_ok
    }

    /// Return `view_box`.
    pub fn view_box(&self) -> (r: Option<ViewBox>)
        ensures
            r == self.view_box,
    {
        self.view_box
    }
}

/// Two metadata with the same values are equal.
pub proof fn lemma_values_determine(a: Metadata, b: Metadata)
    requires
        a.view_box_model() == b.view_box_model(),
        a.width_model() == b.width_model(),
        a.height_model() == b.height_model(),
    ensures
        a == b,
{
    if let (Some(x), Some(y)) = (a.view_box, b.view_box) {
        assert(x@[0] == y@[0] && x@[1] == y@[1] && x@[2] == y@[2] && x@[3] == y@[3]);
        Number::lemma_view_injective(x.min_x, y.min_x);
        Number::lemma_view_injective(x.min_y, y.min_y);
        Number::lemma_view_injective(x.width, y.width);
        Number::lemma_view_injective(x.height, y.height);
    }
    if let (Some(x), Some(y)) = (a.width, b.width) {
        Number::lemma_view_injective(x.width, y.width);
    }
    if let (Some(x), Some(y)) = (a.height, b.height) {
        Number::lemma_view_injective(x.height, y.height);
    }
}

/// What `Metadata::parse` states of its result `r` on the text `text`.
pub open spec fn is_parse_of(r: Result<Metadata, MetadataError>, text: Seq<char>) -> bool {
    &&& r is Ok <==> xml_accepts(text)
    &&& r matches Ok(m) ==> m.describes(text)
    &&& r matches Err(e) ==> e.kind == ErrorKind::MalformedDocument && e.details@ == xml_error_text(
        text,
    )
}

/// Parsing depends on the text alone: two results of parsing one text either
/// are both equal metadata, or both fail with the same kind and message.
pub proof fn lemma_parse_deterministic(text: Seq<char>, a: Result<Metadata, MetadataError>, b: Result<
    Metadata,
    MetadataError,
>)
    requires
        is_parse_of(a, text),
        is_parse_of(b, text),
    ensures
        a is Ok <==> b is Ok,
        a is Ok ==> a->Ok_0 == b->Ok_0,
        a is Err ==> a->Err_0.kind == b->Err_0.kind && a->Err_0.details@ == b->Err_0.details@,
{
    if let (Ok(x), Ok(y)) = (a, b) {
        lemma_values_determine(x, y);
    }
}

} // verus!
