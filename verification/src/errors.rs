//! The error kinds the service's operations report.

use vstd::prelude::*;

verus! {

/// One error kind per failure class of the service; the HTTP layer maps each
/// to a status code through `status_code`.
#[derive(Clone, Copy, PartialEq, Eq, Structural, Debug)]
pub enum ApiError {
    GroupCreation,
    Group,
    UserCreation,
    User,
    UserNotFound,
    DomainRule,
    URLRule,
    Role,
    Internal,
    Jwt,
    CantDeleteRoot,
}

impl ApiError {
    /// The HTTP status class of this error: caller-input faults map to 400,
    /// a missing user to 404, the protected-root refusal to 422, credential
    /// and authorization failures to the one undifferentiated 403, and store
    /// or crypto faults to 500.
    pub open spec fn status_code_spec(self) -> u16 {
        match self {
            ApiError::GroupCreation => 400,
            ApiError::Group => 400,
            ApiError::UserCreation => 400,
            ApiError::User => 400,
            ApiError::UserNotFound => 404,
            ApiError::DomainRule => 400,
            ApiError::URLRule => 400,
            ApiError::Role => 400,
            ApiError::Internal => 500,
            ApiError::Jwt => 403,
            ApiError::CantDeleteRoot => 422,
        }
    }

    pub fn status_code(&self) -> (code: u16)
        ensures
            code == self.status_code_spec(),
    {
        match self {
            ApiError::GroupCreation
            | ApiError::Role
            | ApiError::Group
            | ApiError::DomainRule
            | ApiError::URLRule
            | ApiError::UserCreation
            | ApiError::User => 400,
            ApiError::UserNotFound => 404,
            ApiError::CantDeleteRoot => 422,
            ApiError::Jwt => 403,
            ApiError::Internal => 500,
        }
    }

    /// The body text served with the error response.
    pub open spec fn message_spec(self) -> Seq<char> {
        match self {
            ApiError::GroupCreation => "Couldn't create such group."@,
            ApiError::Group => "Error with group."@,
            ApiError::UserCreation => "Couldn't create such user."@,
            ApiError::User => "Error with user."@,
            ApiError::UserNotFound => "User not found."@,
            ApiError::DomainRule => "Error with domain rule."@,
            ApiError::URLRule => "Error with url rule."@,
            ApiError::Role => "Error with role."@,
            ApiError::Internal => "Internal server error"@,
            ApiError::Jwt => "Couldn't validate jwt"@,
            ApiError::CantDeleteRoot => "Cannot delete root user !"@,
        }
    }

    pub fn message(&self) -> (msg: String)
        ensures
            msg@ == self.message_spec(),
    {
        match self {
            ApiError::GroupCreation => String::from_str("Couldn't create such group."),
            ApiError::Group => String::from_str("Error with group."),
            ApiError::UserCreation => String::from_str("Couldn't create such user."),
            ApiError::User => String::from_str("Error with user."),
            ApiError::UserNotFound => String::from_str("User not found."),
            ApiError::DomainRule => String::from_str("Error with domain rule."),
            ApiError::URLRule => String::from_str("Error with url rule."),
            ApiError::Role => String::from_str("Error with role."),
            ApiError::Internal => String::from_str("Internal server error"),
            ApiError::Jwt => String::from_str("Couldn't validate jwt"),
            ApiError::CantDeleteRoot => String::from_str("Cannot delete root user !"),
        }
    }
}

} // verus!
