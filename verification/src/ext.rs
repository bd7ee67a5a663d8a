//! The trusted boundary: the few outside calls the interpretation relies on.
//!
//! Each function here is believed, not verified. Every one is a thin wrapper
//! whose result is named by an uninterpreted spec function: the result is a
//! function of the arguments alone, and everything the library proves about a
//! document goes through these names.

use vstd::prelude::*;
use crate::model::Timestamp;
use crate::xml::XmlElem;
use chrono::{Datelike, Timelike};

verus! {

#[verifier::external_type_specification]
#[verifier::external_body]
pub struct ExNode<'a, 'input: 'a>(roxmltree::Node<'a, 'input>);

/// Rebuilds one element node as plain data: tag name, immediate text content
/// (empty when none), element children in document order. Relies on
/// roxmltree's `Node::tag_name`, `Node::text`, `Node::children` and
/// `Node::is_element`; only `parse_xml_tree` below calls it.
#[verifier::external_body]
fn elem_of_node(n: roxmltree::Node<'_, '_>) -> XmlElem {
    XmlElem {
        tag: n.tag_name().name().to_string(),
        text: n.text().unwrap_or_default().to_string(),
        children: n.children().filter(roxmltree::Node::is_element).map(elem_of_node).collect(),
    }
}

/// The element tree that a well-formed XML text denotes, as this library
/// keeps it, or nothing when the text is not well-formed XML.
pub uninterp spec fn xml_root_of(s: Seq<char>) -> Option<XmlElem>;

/// Relies on `roxmltree::Document::parse`: the parse is a pure function of
/// the text, yielding the document's root element on success and an error on
/// malformed XML.
#[verifier::external_body]
pub(crate) fn parse_xml_tree(text: &str) -> (r: Option<XmlElem>)
    ensures
        r == xml_root_of(text@),
{
    match roxmltree::Document::parse(text) {
        Ok(doc) => Some(elem_of_node(doc.root_element())),
        Err(_) => None,
    }
}

/// The calendar timestamp that a `YYYYMMDD HHMMSS` literal denotes, or
/// nothing when the literal does not parse under that format.
pub uninterp spec fn datetime_of(s: Seq<char>) -> Option<Timestamp>;

/// Relies on `chrono::NaiveDateTime::parse_from_str` with the fixed format
/// `%Y%m%d %H%M%S`, and on chrono's `Datelike`/`Timelike` accessors: the
/// outcome depends on the characters of `s` alone.
#[verifier::external_body]
pub(crate) fn parse_datetime(s: &str) -> (r: Option<Timestamp>)
    ensures
        r == datetime_of(s@),
{
    match chrono::NaiveDateTime::parse_from_str(s, "%Y%m%d %H%M%S") {
        Ok(dt) => Some(Timestamp {
            year: dt.year(),
            month: dt.month(),
            day: dt.day(),
            hour: dt.hour(),
            minute: dt.minute(),
            second: dt.second(),
        }),
        Err(_) => None,
    }
}

/// The upper-case form of a character sequence.
pub uninterp spec fn upper_of(s: Seq<char>) -> Seq<char>;

/// Relies on `str::to_uppercase`: the result depends on the characters
/// alone, and an empty string stays empty.
#[verifier::external_body]
pub(crate) fn to_upper(s: &str) -> (r: String)
    ensures
        r@ == upper_of(s@),
        s@.len() == 0 ==> r@.len() == 0,
{
    s.to_uppercase()
}

} // verus!
