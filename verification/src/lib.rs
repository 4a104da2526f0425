//! A registry of named parameter tensors.
//!
//! A [`VarStore`] owns the tensors of a model's variables, all on one device,
//! each under a fully-qualified name. A [`Path`] is a position in the hierarchy
//! of names; variables are created through it. The registry lists the
//! trainable variables, switches gradient tracking off and on for them, and
//! hands out and takes back the named tensors that a file holds.
//!
//! What every operation does is stated over [`model::StoreModel`], the registry
//! as a mathematical value; [`laws`] holds what is proved of it.

pub mod device;
pub mod error;
pub mod laws;
pub mod model;
pub mod name;
pub mod path;
pub mod store;
pub mod tensor;

pub use crate::device::Device;
pub use crate::error::LoadError;
pub use crate::path::Path;
pub use crate::store::VarStore;
pub use crate::tensor::{CopyError, Tensor, TensorId};
