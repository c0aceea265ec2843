//! Tables of what is measured.
//!
//! Lengths are in billionths of a metre, and parts of a whole in billionths.

use vstd::prelude::*;
use vstd::string::*;
use crate::decimal::{fixed, push_fixed, push_signed, signed, Scientific, Vector};

verus! {

/// A line of a table: what it is about and what it says.
pub struct Row {
    pub label: &'static str,
    pub value: String,
}

/// Whether a line is about `label` and says `value`.
pub open spec fn says(row: Row, label: Seq<char>, value: Seq<char>) -> bool {
    row.label@ == label && row.value@ == value
}

/// A length with so many digits behind the point.
pub open spec fn metres(length: int, places: nat) -> Seq<char> {
    fixed(length, places) + " m"@
}

/// Writes a length.
pub fn metres_text(length: i64, places: u32) -> (text: String)
    requires
        places <= 9,
    ensures
        text@ == metres(length as int, places as nat),
{
    let mut text = String::new();
    push_fixed(&mut text, length, places);
    text.append(" m");
    assert(text@ =~= metres(length as int, places as nat));
    text
}

/// Writes the parts of a vector, and their unit.
pub fn vector_line(v: Vector, places: u32, unit: &str) -> (text: String)
    requires
        places <= 9,
    ensures
        text@ == v.text(places as nat) + unit@,
{
    let mut text = String::new();
    v.push_to(&mut text, places);
    text.append(unit);
    assert(text@ =~= v.text(places as nat) + unit@);
    text
}

/// Writes a number as leading digits and a power of ten.
pub fn scientific_text(n: Scientific) -> (text: String)
    ensures
        text@ == n.text(),
{
    let mut text = String::new();
    n.push_to(&mut text);
    assert(text@ =~= n.text());
    text
}

/// Writes a number with so many digits behind the point.
pub fn fixed_text(billionths: i64, places: u32) -> (text: String)
    requires
        places <= 9,
    ensures
        text@ == fixed(billionths as int, places as nat),
{
    let mut text = String::new();
    push_fixed(&mut text, billionths, places);
    assert(text@ =~= fixed(billionths as int, places as nat));
    text
}

/// Writes a whole number.
pub fn whole_text(n: i64) -> (text: String)
    ensures
        text@ == signed(n as int),
{
    let mut text = String::new();
    push_signed(&mut text, n);
    assert(text@ =~= signed(n as int));
    text
}

/// A length is written like any number with digits behind the point, and in metres.
pub proof fn lemma_lengths_are_in_metres(
    length: i64,
    places: u32,
    text: String,
    number: String,
    line: String,
    v: Vector,
    unit: &str,
    bare: String,
)
    requires
        places <= 9,
        call_ensures(metres_text, (length, places), text),
        call_ensures(fixed_text, (length, places), number),
        call_ensures(vector_line, (v, places, unit), line),
        call_ensures(vector_line, (v, places, ""), bare),
    ensures
        text@ == number@ + " m"@,
        line@ == bare@ + unit@,
{
    reveal_strlit("");
    assert(bare@ =~= v.text(places as nat));
}

} // verus!
