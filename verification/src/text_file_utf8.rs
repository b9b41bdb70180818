//! Names and explanations for text files that are read line by line.

use crate::text::{from_utf8_lossy, str_eq, utf8_lossy};
use crate::tree::ParsedData;
use vstd::prelude::*;

verus! {

/// A text file: lines, each up to and including its line feed, until the
/// buffer is used up.
pub const SYNTAX: &'static str = "type: repeat0
id: text file
children:
  type: until_byte
  id: line
  byte: 10
";

/// The name of a child under a parent with the identifier `parent_id`: the
/// children of a text file are its lines.
pub open spec fn name_of(parent_id: Seq<char>) -> Seq<char> {
    if parent_id == "text file"@ {
        "line"@
    } else {
        Seq::empty()
    }
}

/// The explanation of a node with the identifier `id` that accounts for
/// `raw_bytes`: a line is explained by its own text.
pub open spec fn explanation_of(id: Seq<char>, raw_bytes: Seq<u8>) -> Seq<char> {
    if id == "text file"@ {
        "text file"@
    } else if id == "line"@ {
        utf8_lossy(raw_bytes)
    } else {
        Seq::empty()
    }
}

/// The name under which a node with the identifier `parent_id` shows a child.
pub fn ask_name(parent_id: &str, _child: &ParsedData) -> (name: String)
    ensures
        name@ == name_of(parent_id@),
{
    if str_eq(parent_id, "text file") {
        "line".to_owned()
    } else {
        String::new()
    }
}

/// The explanation of a node with the identifier `id` that accounts for
/// `raw_bytes`.
pub fn ask_explain(id: &str, raw_bytes: &[u8], _data: &ParsedData) -> (explain: String)
    ensures
        explain@ == explanation_of(id@, raw_bytes@),
{
    if str_eq(id, "text file") {
        "text file".to_owned()
    } else if str_eq(id, "line") {
        from_utf8_lossy(raw_bytes)
    } else {
        String::new()
    }
}

} // verus!
