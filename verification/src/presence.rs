//! What Cortana is doing, as the expression controller tracks it.
use vstd::prelude::*;

verus! {

/// What Cortana is doing.
#[derive(Debug, Clone, Copy, PartialEq, Eq, Structural)]
pub enum PresenceMode {
    Idle,
    Attentive,
    Thinking,
    Speaking,
}

impl PresenceMode {
    /// The mode after a request to change it: speech is not interrupted, any other mode
    /// gives way.
    pub fn after_request(self, requested: PresenceMode) -> (m: PresenceMode)
        ensures
            m == if self == PresenceMode::Speaking {
                PresenceMode::Speaking
            } else {
                requested
            },
    {
        if self != PresenceMode::Speaking {
            requested
        } else {
            self
        }
    }
}

} // verus!
