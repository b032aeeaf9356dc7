//! Resolution of build configuration variables for a `(host, target)` pair of
//! triples, with a record of every variable name that was consulted.

pub mod environment;
pub mod error;
pub mod laws;
pub mod order;
pub mod resolver;

pub use crate::environment::Environment;
pub use crate::error::{EnvVarError, VarError, VarErrorKind};
pub use crate::resolver::BuildEnv;
