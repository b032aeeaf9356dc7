//! Why a variable could not be had.

use vstd::prelude::*;

verus! {

/// Why a required variable could not be read from an environment.
#[derive(Debug, Clone, PartialEq, Eq)]
pub enum EnvVarError {
    /// The variable is not set.
    NotPresent,
    /// The variable is set, to the raw value held here, which is not valid
    /// text.
    NotUnicode(Vec<u8>),
}

/// If variable retrieval fails, it will be for one of these reasons.
#[derive(Debug, Clone, PartialEq, Eq)]
pub enum VarErrorKind {
    /// The variable was found, but its raw value, held here, is not valid
    /// text.
    NotString(Vec<u8>),
    /// A variable that the resolver cannot do without could not be read.
    RequiredEnvMissing(EnvVarError),
}

/// Describes a variable retrieval failure.
#[derive(Debug, Clone, PartialEq, Eq)]
pub struct VarError {
    /// The name that was asked for.
    pub key: String,
    /// What went wrong.
    pub kind: VarErrorKind,
}

impl VarError {
    /// The failure of a variable that was found with a raw value that is not
    /// valid text.
    pub open spec fn is_not_string(&self, key: Seq<char>, raw: Seq<u8>) -> bool {
        &&& self.key@ == key
        &&& self.kind matches VarErrorKind::NotString(value)
        &&& value@ == raw
    }

    /// The failure to read the required variable `key` from `env`: it is not
    /// set there, or set to a value that is not valid text.
    pub open spec fn is_missing(&self, key: Seq<char>, env: Map<Seq<char>, Seq<u8>>) -> bool {
        &&& self.key@ == key
        &&& match self.kind {
            VarErrorKind::RequiredEnvMissing(EnvVarError::NotPresent) => !env.contains_key(key),
            VarErrorKind::RequiredEnvMissing(EnvVarError::NotUnicode(value)) => {
                &&& env.contains_key(key)
                &&& value@ == env[key]
                &&& !vstd::utf8::valid_utf8(value@)
            },
            VarErrorKind::NotString(_) => false,
        }
    }

    /// A short description of the kind of failure.
    pub fn description(&self) -> (text: &'static str)
        ensures
            text@ == match self.kind {
                VarErrorKind::NotString(_) => "found but not utf-8"@,
                VarErrorKind::RequiredEnvMissing(_) => "other required env var missing"@,
            },
    {
        match self.kind {
            VarErrorKind::NotString(_) => "found but not utf-8",
            VarErrorKind::RequiredEnvMissing(_) => "other required env var missing",
        }
    }
}

} // verus!
