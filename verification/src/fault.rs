//! What can go wrong.

use vstd::prelude::*;

verus! {

/// An error of the agent.
#[derive(Debug, PartialEq, Eq)]
pub enum Fault {
    /// The endpoint answered with something that is no completion.
    Http(String),
    /// A thought ran into its cap.
    Watchdog,
    /// Anything else, in words.
    Msg(String),
}

/// What an error says.
pub ghost enum FaultV {
    Http(Seq<char>),
    Watchdog,
    Msg(Seq<char>),
}

impl View for Fault {
    type V = FaultV;

    open spec fn view(&self) -> FaultV {
        match self {
            Fault::Http(s) => FaultV::Http(s@),
            Fault::Watchdog => FaultV::Watchdog,
            Fault::Msg(s) => FaultV::Msg(s@),
        }
    }
}

impl Fault {
    pub fn http(s: &str) -> (r: Fault)
        ensures
            r@ == FaultV::Http(s@),
    {
        Fault::Http(s.to_owned())
    }

    pub fn msg(s: &str) -> (r: Fault)
        ensures
            r@ == FaultV::Msg(s@),
    {
        Fault::Msg(s.to_owned())
    }
}

} // verus!
