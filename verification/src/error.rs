//! Why a registry could not be restored.

use vstd::prelude::*;
use crate::model::LoadFailure;
use crate::tensor::CopyError;

verus! {

/// The failure of a load. The variables that were walked before the one
/// named here have taken their new values; that one and the rest have not.
#[derive(Clone, Debug, PartialEq, Eq)]
pub enum LoadError {
    /// No tensor of the variable's name was found.
    NotFound { name: String },
    /// The tensor found for the variable could not be copied into it.
    Copy { name: String, error: CopyError },
}

impl View for LoadError {
    type V = LoadFailure;

    open spec fn view(&self) -> LoadFailure {
        match *self {
            LoadError::NotFound { name } => LoadFailure::NotFound { name: name@ },
            LoadError::Copy { name, error } => LoadFailure::Copy { name: name@, error },
        }
    }
}

/// The outcome of a load, with its failure as a mathematical value.
pub open spec fn outcome(r: Result<(), LoadError>) -> Result<(), LoadFailure> {
    match r {
        Ok(_) => Ok(()),
        Err(e) => Err(e@),
    }
}

} // verus!
