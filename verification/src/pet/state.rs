//! How the pet feels; its needs, which change by fractions each tick, are
//! kept by the host.
use vstd::prelude::*;

verus! {

/// How the pet feels.
#[derive(Clone, Copy, Debug, PartialEq, Eq, Structural)]
pub enum Mood {
    Ecstatic,
    Happy,
    Content,
    Bored,
    Hungry,
    Sad,
    Sleeping,
}

impl Default for Mood {
    fn default() -> (r: Self)
        ensures
            r == Mood::Content,
    {
        Mood::Content
    }
}

} // verus!
