use vstd::prelude::*;

verus! {

/// Why a request about a user failed.
#[derive(Debug, Clone, Copy, PartialEq, Eq, Structural)]
pub enum CustomError {
    UserExists,
    UserIsNotOnline,
    UserDown,
}

/// The text that describes each error.
pub open spec fn error_text(e: CustomError) -> Seq<char> {
    match e {
        CustomError::UserExists => "User already exists"@,
        CustomError::UserDown => "User is Unreachable"@,
        CustomError::UserIsNotOnline => "User is not active"@,
    }
}

impl CustomError {
    /// The text that describes the error.
    pub fn message(&self) -> (r: String)
        ensures
            r@ == error_text(*self),
    {
        match self {
            CustomError::UserExists => "User already exists".to_owned(),
            CustomError::UserDown => "User is Unreachable".to_owned(),
            CustomError::UserIsNotOnline => "User is not active".to_owned(),
        }
    }
}

} // verus!
