//! The error taxonomy of the exam engine.
//!
//! These are expected business outcomes or collaborator lookups that
//! failed; the engine translates them into client-visible responses and
//! never panics on them.

use vstd::prelude::*;

verus! {

pub type ModelResult<T> = Result<T, ModelError>;

/// What can go wrong while serving an exam operation.
#[derive(Debug, PartialEq)]
pub enum ModelError {
    /// The named test is not in the configuration.
    TestNotExist(String),
    /// The user has spent all attempts, or the variant is already scored.
    TestIsDone,
    /// No recorded result exists for the named (user, test) pair.
    ResultNotExist(String),
    /// The user is unknown or may not take the test.
    UserNotAllowed,
    /// No open variant exists for the named (user, test) pair.
    VariantNotExist(String),
    /// The user already has an open variant on another test.
    TestIsOpened(String, String),
}

impl ModelError {
    /// A short description of the error.
    pub fn message(&self) -> (r: String)
        ensures
            r@.len() > 0,
    {
        let m: &str = match self {
            ModelError::TestNotExist(_) => "the test does not exist",
            ModelError::TestIsDone => "the test is finished",
            ModelError::ResultNotExist(_) => "no result exists",
            ModelError::UserNotAllowed => "the user may not do this",
            ModelError::VariantNotExist(_) => "no open variant exists",
            ModelError::TestIsOpened(_, _) => "another test is already open",
        };
        proof {
            reveal_strlit("the test does not exist");
            reveal_strlit("the test is finished");
            reveal_strlit("no result exists");
            reveal_strlit("the user may not do this");
            reveal_strlit("no open variant exists");
            reveal_strlit("another test is already open");
        }
        m.to_owned()
    }
}

} // verus!
