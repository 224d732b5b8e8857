//! Request validation.

use vstd::prelude::*;

use crate::model::{SearchError, SearchRequest};
use crate::text::{normalize_query, normalize_query_spec};

verus! {

/// Why a request's fields are rejected, if they are: a zero limit, or a query without a
/// searchable token.
pub open spec fn request_rejection(limit: usize, query: Seq<char>) -> Option<Seq<char>> {
    if limit == 0 {
        Some("limit must be greater than 0"@)
    } else if normalize_query_spec(query).len() == 0 {
        Some("query must include at least one searchable token"@)
    } else {
        None
    }
}

/// Checks the limit and the query of a request: `Ok` exactly when `request_rejection`
/// finds nothing, else an invalid-request error with its message.
pub fn validate_request(request: &SearchRequest) -> (r: Result<(), SearchError>)
    ensures
        match r {
            Ok(()) => request_rejection(request.limit, request.query@) is None,
            Err(e) => match e {
                SearchError::InvalidRequest(m) => request_rejection(request.limit, request.query@)
                    == Some(m@),
                _ => false,
            },
        },
{
    if request.limit == 0 {
        return Err(SearchError::InvalidRequest(String::from_str("limit must be greater than 0")));
    }
    let normalized_query = normalize_query(request.query.as_str());
    if normalized_query.as_str().is_empty() {
        return Err(
            SearchError::InvalidRequest(
                String::from_str("query must include at least one searchable token"),
            ),
        );
    }
    Ok(())
}

/// The error for a search directory that is not a directory.
pub open spec fn missing_directory_message(directory_path: Seq<char>) -> Seq<char> {
    "directory does not exist: "@ + directory_path
}

/// Checks that the search directory (as given by the user) is a directory: `Ok` when
/// `is_directory` holds, else an invalid-request error naming the path.
pub fn validate_directory(directory_path: &str, is_directory: bool) -> (r: Result<(), SearchError>)
    ensures
        match r {
            Ok(()) => is_directory,
            Err(e) => !is_directory && match e {
                SearchError::InvalidRequest(m) => m@ == missing_directory_message(directory_path@),
                _ => false,
            },
        },
{
    if is_directory {
        return Ok(());
    }
    let mut message = String::from_str("directory does not exist: ");
    message.append(directory_path);
    Err(SearchError::InvalidRequest(message))
}

} // verus!
