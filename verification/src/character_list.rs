//! The list of the characters that there are.

use vstd::prelude::*;

verus! {

/// What the list says of one character: its name in English.
#[derive(Debug, Clone, PartialEq)]
pub struct MinimalCharacter {
    pub en: String,
}

} // verus!
