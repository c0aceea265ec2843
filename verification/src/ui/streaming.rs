//! The panel for streaming.

use vstd::prelude::*;
use vstd::string::*;
use crate::decimal::{decimal, push_decimal};

verus! {

/// Writes how many nodes are loaded and how many are on their way.
pub fn nodes_label(loaded: u32, loading: u32) -> (line: String)
    ensures
        line@ == "Nodes: "@ + decimal(loaded as nat) + " loaded, "@ + decimal(loading as nat)
            + " loading"@,
{
    let mut line = "Nodes: ".to_owned();
    push_decimal(&mut line, loaded as u64);
    line.append(" loaded, ");
    push_decimal(&mut line, loading as u64);
    line.append(" loading");
    line
}

/// Writes how many meshes there are.
pub fn meshes_label(count: u32) -> (line: String)
    ensures
        line@ == "Meshes: "@ + decimal(count as nat),
{
    let mut line = "Meshes: ".to_owned();
    push_decimal(&mut line, count as u64);
    line
}

} // verus!
