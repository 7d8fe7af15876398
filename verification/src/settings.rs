//! Settings that the views read.

use vstd::prelude::*;

verus! {

/// How wordy tooltips are.
#[derive(Clone, Copy, Debug, PartialEq, Eq, Structural)]
pub enum TooltipVerbosity {
    Short,
    Verbose,
}

impl Default for TooltipVerbosity {
    fn default() -> (r: Self)
        ensures
            r == TooltipVerbosity::Short,
    {
        TooltipVerbosity::Short
    }
}

} // verus!
