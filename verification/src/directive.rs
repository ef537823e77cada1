//! Compiler directives: circuit operations that act on no state.

use vstd::prelude::*;

verus! {

/// An error of circuit construction, with its message.
pub enum CircuitError {
    GenericError(String),
}

/// A compiler directive placed in a circuit.
#[derive(Clone, Copy, Debug, Hash, PartialEq, Eq, PartialOrd, Ord, Structural)]
pub enum DirectiveOperation {
    Barrier,
}

/// The directive with discriminant `value`, if there is one.
pub open spec fn directive_of(value: int) -> Option<DirectiveOperation> {
    if value == 0 {
        Some(DirectiveOperation::Barrier)
    } else {
        None
    }
}

impl DirectiveOperation {
    /// The directive bound to the arguments of a call site: a directive
    /// takes no parameters, so it is itself.
    pub fn specialize<A>(self, _args: A) -> (r: Result<DirectiveOperation, CircuitError>)
        ensures
            r == Ok::<DirectiveOperation, CircuitError>(self),
    {
        Ok(self)
    }

    /// The directive with discriminant `value`; any other value is an error.
    pub fn try_from_u64(value: u64) -> (r: Result<DirectiveOperation, CircuitError>)
        ensures
            match r {
                Ok(d) => directive_of(value as int) == Some(d),
                Err(e) => directive_of(value as int) is None && (e matches CircuitError::GenericError(m)
                    && m@ == "Invalid directive operation discriminant provided."@),
            },
    {
        if value == 0 {
            Ok(DirectiveOperation::Barrier)
        } else {
            Err(CircuitError::GenericError("Invalid directive operation discriminant provided.".to_owned()))
        }
    }

    /// The directive with discriminant `value`; any other value is an error.
    pub fn try_from_usize(value: usize) -> (r: Result<DirectiveOperation, CircuitError>)
        ensures
            match r {
                Ok(d) => directive_of(value as int) == Some(d),
                Err(e) => directive_of(value as int) is None && (e matches CircuitError::GenericError(m)
                    && m@ == "Invalid directive operation discriminant provided."@),
            },
    {
        DirectiveOperation::try_from_u64(value as u64)
    }
}

} // verus!
