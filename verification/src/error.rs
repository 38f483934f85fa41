//! The library's error type.

use vstd::prelude::*;

use crate::double::Double;
use crate::text::join2;

verus! {

/// Why a fit failed.
#[derive(Debug)]
pub enum GamrsError {
    /// An argument is out of its range.
    InvalidParameter(String),
    /// A linear system could not be factored.
    SingularSystem(String),
    /// A search ran out of iterations.
    NotConverged {
        /// Iterations done.
        iters: usize,
        /// Largest absolute gradient component at the end.
        grad_norm: Double,
    },
}

/// The Python exception an error becomes.
#[derive(Debug)]
pub enum Raised {
    /// `ValueError` with a text.
    ValueError(String),
    /// `RuntimeError` with a text.
    RuntimeError(String),
}

impl GamrsError {
    /// The text that an error carries, if it carries one.
    pub open spec fn carried(&self) -> Option<Seq<char>> {
        match self {
            GamrsError::InvalidParameter(m) => Some(m@),
            GamrsError::SingularSystem(m) => Some(m@),
            GamrsError::NotConverged { .. } => None,
        }
    }

    /// The text that an error carries, if it carries one.
    pub fn message(&self) -> (m: Option<String>)
        ensures
            m is Some == self.carried() is Some,
            m matches Some(t) ==> self.carried() == Some(t@),
    {
        match self {
            GamrsError::InvalidParameter(m) => Some(m.clone()),
            GamrsError::SingularSystem(m) => Some(m.clone()),
            GamrsError::NotConverged { .. } => None,
        }
    }

    /// A singular system with its text put behind `prefix`; other errors as they
    /// are.
    pub open spec fn labelled(self, prefix: Seq<char>, r: GamrsError) -> bool {
        match self {
            GamrsError::SingularSystem(m) => r matches GamrsError::SingularSystem(t) && t@ == prefix + m@,
            _ => r == self,
        }
    }

    /// Puts `prefix` before the text of a singular system; other errors pass.
    pub fn label_singular(self, prefix: &str) -> (r: GamrsError)
        ensures
            self.labelled(prefix@, r),
    {
        match self {
            GamrsError::SingularSystem(m) => GamrsError::SingularSystem(join2(prefix, m.as_str())),
            other => other,
        }
    }
}

/// Maps an error to the exception Python sees. `shown` is the rendered form of an
/// error that carries no text.
pub fn map_err(e: GamrsError, shown: &str) -> (r: Raised)
    ensures
        match e {
            GamrsError::InvalidParameter(m) => r matches Raised::ValueError(t) && t@ == m@,
            GamrsError::SingularSystem(m) => r matches Raised::RuntimeError(t) && t@
                == "singular system: "@ + m@,
            GamrsError::NotConverged { .. } => r matches Raised::RuntimeError(t) && t@ == shown@,
        },
{
    match e {
        GamrsError::InvalidParameter(m) => Raised::ValueError(m),
        GamrsError::SingularSystem(m) => Raised::RuntimeError(join2("singular system: ", m.as_str())),
        GamrsError::NotConverged { .. } => Raised::RuntimeError(shown.to_owned()),
    }
}

} // verus!
