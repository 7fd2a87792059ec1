//! Whether bootstrap has completed in this process.
use vstd::prelude::*;

verus! {

/// A gate that opens once, when bootstrap has completed, and stays open for the
/// life of the process. Until then nothing plans placements or reclaims state.
/// It is never copied: all who consult it share one value, so that none of them
/// can miss that it opened.
#[derive(Debug)]
pub struct RuntimeReadiness {
    ready: bool,
}

impl RuntimeReadiness {
    pub closed spec fn spec_ready(&self) -> bool {
        self.ready
    }

    pub fn is_ready(&self) -> (ready: bool)
        ensures
            ready == self.spec_ready(),
    {
        self.ready
    }

    /// Open it.
    pub fn mark_ready(&mut self)
        ensures
            final(self).spec_ready(),
    {
        self.ready = true;
    }
}

impl Default for RuntimeReadiness {
    fn default() -> (g: RuntimeReadiness)
        ensures
            !g.spec_ready(),
    {
        RuntimeReadiness { ready: false }
    }
}

} // verus!
