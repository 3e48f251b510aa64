use vstd::prelude::*;

verus! {

/// What the library reports when a text does not fit a grammar.
#[derive(Debug)]
pub enum Error {
    /// A failure described by a free text.
    Generic(String),
}

impl Error {
    /// The description of the failure.
    pub fn message(&self) -> (out: String)
        ensures
            out@ == "Generic "@ + self->Generic_0@,
    {
        match self {
            Error::Generic(text) => {
                let mut out = String::from_str("Generic ");
                out.append(text.as_str());
                out
            },
        }
    }
}

} // verus!
