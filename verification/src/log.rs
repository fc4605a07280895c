//! Where the messages that describe an analysis are shown.

use vstd::prelude::*;

verus! {

/// The platform the analysis runs on, which decides where its messages go: the
/// browser's console, or standard output.
pub enum Platform {
    Wasm,
    Windows,
}

} // verus!
