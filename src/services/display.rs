//! Types of the display manager's API.
use vstd::prelude::*;

verus! {

/// Kinds of dialogues supported by the display manager.
pub enum DialogueKind {
    /// A dialogue with no options.
    Alert,
    /// A dialogue with only one option.
    Affirm(String),
    /// A dialogue with two options.
    Choice(String, String),
}

} // verus!
