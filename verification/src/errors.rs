use vstd::prelude::*;

verus! {

/// A terminal error: a single human-readable message.
#[derive(Debug)]
pub struct Error(pub String);

} // verus!
