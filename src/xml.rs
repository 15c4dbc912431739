//! The XML reader: roxmltree, behind the two functions below.
use vstd::prelude::*;

verus! {

/// Whether roxmltree, with DTDs allowed, reads `text` as a document.
pub uninterp spec fn xml_accepts(text: Seq<char>) -> bool;

/// The message of the error that roxmltree, with DTDs allowed, gives for `text`.
pub uninterp spec fn xml_error_text(text: Seq<char>) -> Seq<char>;

/// The value of the root element's attribute of local name `name` in the
/// document that roxmltree reads from `text`, if the element has it.
pub uninterp spec fn root_attribute_of(text: Seq<char>, name: Seq<char>) -> Option<Seq<char>>;

/// The text of an optional string.
pub open spec fn text_of(v: Option<String>) -> Option<Seq<char>> {
    match v {
        Some(s) => Some(s@),
        None => None,
    }
}

/// Relies on roxmltree's `Document::parse_with_options`, with DTDs allowed, to
/// read `text` (its result, and the `Display` message of its error, depend on the
/// text alone, and a document it returns always has a root element), and on
/// `Document::root_element` and `Node::attribute` to look up each of `names`, as
/// a local name, on that element.
#[verifier::external_body]
pub(crate) fn root_attributes(text: &str, names: &[&str]) -> (r: Result<
    Vec<Option<String>>,
    String,
>)
    ensures
        r is Ok <==> xml_accepts(text@),
        r matches Err(m) ==> m@ == xml_error_text(text@),
        r matches Ok(values) ==> values@.len() == names@.len(),
        r matches Ok(values) ==> forall|i: int|
            0 <= i < names@.len() ==> text_of(#[trigger] values@[i]) == root_attribute_of(
                text@,
                names@[i]@,
            ),
{
    let options = roxmltree::ParsingOptions { allow_dtd: true, ..Default::default() };
    let doc = roxmltree::Document::parse_with_options(text, options).map_err(|e| e.to_string())?;
    let root = doc.root_element();
    Ok(names.iter().map(|name| root.attribute(*name).map(String::from)).collect())
}

} // verus!
