//! Errors.

use vstd::prelude::*;

verus! {

#[derive(Debug)]
pub enum ErrorCode {
    Internal(String),
    BadArguments(String),
    InvalidArgument(String),
    AbortedQuery(String),
    EmptyData(String),
    LicenseKeyInvalid(String),
    NotFoundClusterNode(String),
    BadBytes(String),
    EmptyDataFromServer(String),
    Timeout(String),
    CannotConnectNode(String),
    AuthenticateFailure(String),
    TooManyUserConnections(String),
    SemanticError(String),
    SyntaxException(String),
    UnknownDatabase(String),
    UnknownTable(String),
}

}
