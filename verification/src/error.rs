//! Errors surfaced by the picker boundary.

use vstd::prelude::*;

verus! {

/// Why a picker invocation could not produce a selection.
#[derive(Clone, Debug, PartialEq)]
pub enum Error {
    /// No menu back end could be initialised.
    NoMenu,
    /// The menu back end reported a failure of its own.
    BMenu(String),
}

impl Error {
    /// A short description, for reporting at the process boundary.
    pub fn message(&self) -> (r: String)
        ensures
            self is NoMenu ==> r@ == "no menu backend available"@,
            self matches Error::BMenu(m) ==> r@ == m@,
    {
        match self {
            Error::NoMenu => "no menu backend available".to_owned(),
            Error::BMenu(m) => m.clone(),
        }
    }
}

} // verus!
