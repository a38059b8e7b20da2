use vstd::prelude::*;

verus! {

/// The failures that a request can meet.
#[derive(Debug, Clone, Copy, PartialEq, Eq, Structural)]
pub enum ApiError {
    /// Bad credentials, or a token that is invalid or expired.
    Authentication,
    /// A well-formed token of the wrong kind.
    Authorization,
    /// Malformed input, such as an id list that does not parse.
    Validation,
    /// A unique field that is already taken.
    Conflict,
    /// A request that the target does not support, such as badges for a group
    /// without a maximum score.
    Precondition,
    /// An unknown group or player.
    NotFound,
    /// Any other failure of the store.
    Internal,
}

pub open spec fn status_of(e: ApiError) -> u16 {
    match e {
        ApiError::Authentication => 401,
        ApiError::Authorization => 401,
        ApiError::Validation => 400,
        ApiError::Conflict => 409,
        ApiError::Precondition => 422,
        ApiError::NotFound => 404,
        ApiError::Internal => 500,
    }
}

impl ApiError {
    /// The HTTP status that reports this failure.
    pub fn status_code(&self) -> (r: u16)
        ensures
            r == status_of(*self),
    {
        match self {
            ApiError::Authentication => 401,
            ApiError::Authorization => 401,
            ApiError::Validation => 400,
            ApiError::Conflict => 409,
            ApiError::Precondition => 422,
            ApiError::NotFound => 404,
            ApiError::Internal => 500,
        }
    }
}

} // verus!
