use vstd::prelude::*;

use crate::cursor::chars_of;
use crate::document::{ValueType, ValueV};

verus! {

broadcast use vstd::string::group_string_axioms;

/// Horizontal alignment of text on a slide.
#[derive(Debug, Copy, Clone, PartialEq, Eq, Structural)]
pub enum Alignment {
    Right,
    Center,
    Left,
}

/// Vertical alignment of text on a slide.
#[derive(Debug, Copy, Clone, PartialEq, Eq, Structural)]
pub enum VAlignment {
    Top,
    Center,
    Bottom,
}

/// The text of a string setting, or `data` when the setting holds no
/// string.
pub fn match_value_strdata(data: &str, valuetype: &ValueType) -> (r: String)
    ensures
        r@ == match valuetype@ {
            ValueV::Str(s) => s,
            _ => data@,
        },
{
    match valuetype {
        ValueType::Str(s) => s.clone(),
        _ => data.to_string(),
    }
}

/// What `str::to_lowercase` gives for `s`.
pub uninterp spec fn lowercase(s: Seq<char>) -> Seq<char>;

/// Calls `str::to_lowercase`.  The contract only names the result
/// (`lowercase` of the argument); which characters map to which is left to
/// the Unicode tables of std and is not stated.
#[verifier::external_body]
fn to_lowercase(s: &str) -> (r: String)
    ensures
        r@ == lowercase(s@),
{
    s.to_lowercase()
}

/// The alignment a (lower-case) name stands for.
pub open spec fn alignment_named(name: Seq<char>) -> Option<Alignment> {
    if name == "left"@ {
        Some(Alignment::Left)
    } else if name == "right"@ {
        Some(Alignment::Right)
    } else if name == "center"@ {
        Some(Alignment::Center)
    } else {
        None
    }
}

/// The vertical alignment a (lower-case) name stands for.
pub open spec fn valignment_named(name: Seq<char>) -> Option<VAlignment> {
    if name == "top"@ {
        Some(VAlignment::Top)
    } else if name == "bottom"@ {
        Some(VAlignment::Bottom)
    } else if name == "center"@ {
        Some(VAlignment::Center)
    } else {
        None
    }
}

fn same_text(a: &str, b: &str) -> (r: bool)
    ensures
        r == (a@ == b@),
{
    let x = chars_of(a);
    let y = chars_of(b);
    if x.len() != y.len() {
        return false;
    }
    let mut i: usize = 0;
    while i < x.len()
        invariant
            x.len() == y.len(),
            x@ == a@,
            y@ == b@,
            i <= x.len(),
            forall|k: int| 0 <= k < i ==> x@[k] == y@[k],
        decreases x.len() - i,
    {
        if x[i] != y[i] {
            return false;
        }
        i += 1;
    }
    assert(x@ =~= y@);
    true
}

/// The alignment a lower-case name stands for: `left`, `right` or `center`.
pub fn alignment_from_lowercase(name: &str) -> (r: Option<Alignment>)
    ensures
        r == alignment_named(name@),
{
    if same_text(name, "left") {
        Some(Alignment::Left)
    } else if same_text(name, "right") {
        Some(Alignment::Right)
    } else if same_text(name, "center") {
        Some(Alignment::Center)
    } else {
        None
    }
}

/// The vertical alignment a lower-case name stands for: `top`, `bottom` or
/// `center`.
pub fn valignment_from_lowercase(name: &str) -> (r: Option<VAlignment>)
    ensures
        r == valignment_named(name@),
{
    if same_text(name, "top") {
        Some(VAlignment::Top)
    } else if same_text(name, "bottom") {
        Some(VAlignment::Bottom)
    } else if same_text(name, "center") {
        Some(VAlignment::Center)
    } else {
        None
    }
}

/// The alignment a name stands for, in any case.
pub fn alignment_from_name(name: &str) -> (r: Option<Alignment>)
    ensures
        r == alignment_named(lowercase(name@)),
{
    let lower = to_lowercase(name);
    alignment_from_lowercase(lower.as_str())
}

/// The vertical alignment a name stands for, in any case.
pub fn valignment_from_name(name: &str) -> (r: Option<VAlignment>)
    ensures
        r == valignment_named(lowercase(name@)),
{
    let lower = to_lowercase(name);
    valignment_from_lowercase(lower.as_str())
}

} // verus!
