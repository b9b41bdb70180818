//! The schema of Windows bitmap files.

use vstd::prelude::*;

verus! {

/// A bitmap file: the file header, the information header with its size in
/// front, the color table up to the offset that the file header gives, and
/// the pixel data up to the size that the file header gives.
pub const SYNTAX: &'static str = "type: tuple
id: bitmap
items:
  - type: tuple
    id: file header
    items:
      - type: constants
        id: signature
        constants: [66, 77]
      - type: u32
        id: file size
      - type: u16
        id: reserved 1
      - type: u16
        id: reserved 2
      - type: u32
        id: pixel data offset
  - type: tuple
    id: information header
    items:
      - type: u32
        id: header size
      - type: skim
        id: header fields
        len_bytes:
          \"+\": [header size, -4]
  - type: skim
    id: color table
    len_bytes:
      \"+\":
        - pixel data offset
        - -14
        - \"*\": [header size, -1]
  - type: skim
    id: pixel data
    len_bytes:
      \"+\":
        - file size
        - \"*\": [pixel data offset, -1]
";

} // verus!
