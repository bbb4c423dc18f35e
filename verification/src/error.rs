use vstd::prelude::*;

verus! {

/// What can go wrong while a request travels through the framework.
#[derive(Debug, PartialEq, Clone)]
pub enum Error {
    /// No route answers the given path.
    NotFound(String),
    InvalidConfig,
    InvalidRouterConfig,
    FileNotExist,
    ShouldRedirect(String),
    Prompt(String),
    Warning(String),
    Fatal(String),
    Custom(String),
}

} // verus!
