//! Validation state of a field.
use vstd::prelude::*;

verus! {

#[derive(Clone, Debug, PartialEq, Eq)]
pub enum ValidationState {
    /// No validation has been performed or it's irrelevant for this field.
    NotValidated,
    /// A debounced async validation is in flight.
    Validating,
    /// Value is valid.
    Valid,
    /// Value is acceptable but warrants a soft warning to the user.
    Warning(String),
    /// Value is invalid; the message explains why.
    Invalid(String),
}

impl ValidationState {
    pub fn is_known(&self) -> (r: bool)
        ensures
            r == !(*self is NotValidated || *self is Validating),
    {
        match self {
            ValidationState::NotValidated | ValidationState::Validating => false,
            _ => true,
        }
    }

    pub fn is_invalid(&self) -> (r: bool)
        ensures
            r == (*self is Invalid),
    {
        match self {
            ValidationState::Invalid(_) => true,
            _ => false,
        }
    }

    pub fn is_warning(&self) -> (r: bool)
        ensures
            r == (*self is Warning),
    {
        match self {
            ValidationState::Warning(_) => true,
            _ => false,
        }
    }

    /// The message of an `Invalid` or `Warning` state.
    pub fn message(&self) -> (r: Option<&str>)
        ensures
            match *self {
                ValidationState::Invalid(m) => r is Some && r.unwrap()@ == m@,
                ValidationState::Warning(m) => r is Some && r.unwrap()@ == m@,
                _ => r is None,
            },
    {
        match self {
            ValidationState::Invalid(m) => Some(m.as_str()),
            ValidationState::Warning(m) => Some(m.as_str()),
            _ => None,
        }
    }
}

impl Default for ValidationState {
    fn default() -> (r: Self)
        ensures
            r is NotValidated,
    {
        ValidationState::NotValidated
    }
}

} // verus!
