use vstd::prelude::*;

verus! {

/// The window in which the global configuration is edited.
#[derive(Debug, Clone, Copy, PartialEq, Eq, Structural)]
pub struct ConfigWindow {}

impl Default for ConfigWindow {
    fn default() -> (r: Self)
        ensures
            r == (ConfigWindow {}),
    {
        ConfigWindow {}
    }
}

} // verus!
