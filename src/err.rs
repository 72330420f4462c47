//! The two kinds of failure the protocol core reports.
use vstd::prelude::*;

verus! {

/// `Io`: the underlying transport failed. `Input`: the peer sent
/// malformed protocol data.
#[derive(Debug)]
pub enum Error {
    Io(String),
    Input(String),
}

pub type Result<T> = core::result::Result<T, Error>;

/// Fails with an input error carrying `msg`.
pub fn input<T>(msg: String) -> (r: Result<T>)
    ensures
        r matches Err(Error::Input(m)) && m@ == msg@,
{
    Err(Error::Input(msg))
}

impl Error {
    /// True for a malformed-input error.
    pub open spec fn is_input(&self) -> bool {
        self is Input
    }

    /// Renders the error as `Error::Io(msg)` or `Error::Input(msg)`.
    pub fn to_string(&self) -> (r: String)
        ensures
            r@ == match self {
                Error::Io(m) => "Error::Io("@ + m@ + ")"@,
                Error::Input(m) => "Error::Input("@ + m@ + ")"@,
            },
    {
        match self {
            Error::Io(m) => {
                let s = String::from_str("Error::Io(");
                s.concat(m.as_str()).concat(")")
            },
            Error::Input(m) => {
                let s = String::from_str("Error::Input(");
                s.concat(m.as_str()).concat(")")
            },
        }
    }
}

} // verus!
