use vstd::prelude::*;

verus! {

/// Switches for diagnostic output of a simulation run.
#[derive(Clone, Copy, Debug, PartialEq, Eq, Structural)]
pub struct DebugConf {
    should_print_collisions: bool,
}

impl DebugConf {
    /// Whether collisions with the cloth are reported.
    pub closed spec fn prints_collisions(self) -> bool {
        self.should_print_collisions
    }

    /// The configuration a new simulator starts with: nothing is printed.
    pub fn new() -> (r: DebugConf)
        ensures
            !r.prints_collisions(),
    {
        DebugConf { should_print_collisions: false }
    }

    /// Whether each ball-to-cloth collision is reported as it is resolved.
    pub fn should_print_collisions(&self) -> (r: bool)
        ensures
            r == self.prints_collisions(),
    {
        self.should_print_collisions
    }
}

} // verus!
