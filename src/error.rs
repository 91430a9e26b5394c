use vstd::prelude::*;

verus! {

/// Errors of the resource request pipeline, each mapped onto one status code
/// of the transport.
#[derive(Clone, Copy, Debug, PartialEq, Eq, Structural)]
pub enum ApiError {
    /// More ids were given to a delete than it accepts.
    TooManyIds,
    /// A delete was given no ids.
    NoIds,
    /// A modify matched no row of the organization.
    NotFound,
    /// A modify matched more than one row.
    MultipleRows,
    /// A rendition set without an audio rendition.
    MissingAudioRendition,
    /// A rendition set without a video rendition.
    MissingVideoRendition,
    /// More tags than a row may carry.
    TooManyTags,
    /// A tag key that is empty or too long.
    InvalidTagKey,
    /// A tag value that is too long.
    InvalidTagValue,
    /// A search option that cannot be turned into a query.
    InvalidSearchOptions,
    /// The access token lacks the scope the request needs.
    PermissionDenied,
    /// The organization's rate limit for the request is spent.
    ResourceExhausted,
}

/// Status code of the transport that an error is reported under.
#[derive(Clone, Copy, Debug, PartialEq, Eq, Structural)]
pub enum StatusCode {
    InvalidArgument,
    NotFound,
    PermissionDenied,
    ResourceExhausted,
    Internal,
}

impl ApiError {
    pub open spec fn spec_code(self) -> StatusCode {
        match self {
            ApiError::NotFound => StatusCode::NotFound,
            ApiError::MultipleRows => StatusCode::Internal,
            ApiError::PermissionDenied => StatusCode::PermissionDenied,
            ApiError::ResourceExhausted => StatusCode::ResourceExhausted,
            _ => StatusCode::InvalidArgument,
        }
    }

    /// The status code under which this error reaches the client.
    pub fn code(&self) -> (r: StatusCode)
        ensures
            r == self.spec_code(),
    {
        match self {
            ApiError::NotFound => StatusCode::NotFound,
            ApiError::MultipleRows => StatusCode::Internal,
            ApiError::PermissionDenied => StatusCode::PermissionDenied,
            ApiError::ResourceExhausted => StatusCode::ResourceExhausted,
            _ => StatusCode::InvalidArgument,
        }
    }

    pub open spec fn spec_message(self) -> &'static str {
        match self {
            ApiError::TooManyIds => "too many ids provided for delete: max 100",
            ApiError::NoIds => "no ids provided for delete",
            ApiError::NotFound => "recording config not found",
            ApiError::MultipleRows => "failed to modify recording config, more than one row returned",
            ApiError::MissingAudioRendition => "must specify at least one audio rendition",
            ApiError::MissingVideoRendition => "must specify at least one video rendition",
            ApiError::TooManyTags => "too many tags",
            ApiError::InvalidTagKey => "invalid tag key",
            ApiError::InvalidTagValue => "invalid tag value",
            ApiError::InvalidSearchOptions => "invalid search options",
            ApiError::PermissionDenied => "the access token does not allow this request",
            ApiError::ResourceExhausted => "rate limit exceeded",
        }
    }

    /// The message sent to the client with the status code.
    pub fn message(&self) -> (r: &'static str)
        ensures
            r == self.spec_message(),
    {
        match self {
            ApiError::TooManyIds => "too many ids provided for delete: max 100",
            ApiError::NoIds => "no ids provided for delete",
            ApiError::NotFound => "recording config not found",
            ApiError::MultipleRows => "failed to modify recording config, more than one row returned",
            ApiError::MissingAudioRendition => "must specify at least one audio rendition",
            ApiError::MissingVideoRendition => "must specify at least one video rendition",
            ApiError::TooManyTags => "too many tags",
            ApiError::InvalidTagKey => "invalid tag key",
            ApiError::InvalidTagValue => "invalid tag value",
            ApiError::InvalidSearchOptions => "invalid search options",
            ApiError::PermissionDenied => "the access token does not allow this request",
            ApiError::ResourceExhausted => "rate limit exceeded",
        }
    }
}

} // verus!
