//! The library's error taxonomy and how the HTTP layer is told to present
//! each kind: a status code, an optional JSON body, and a log message.
use vstd::prelude::*;

use vstd::string::StringExecFns;

verus! {

/// Everything that can go wrong while loading the configuration or building
/// the catalog, or when a lookup misses.
#[derive(Debug, Clone)]
pub enum Error {
    /// A failure while indexing, with the offending path when one is known.
    IndexingError { path: Option<String>, what: String },
    /// A failure while loading or storing the configuration.
    ConfigLoadError { msg: String },
    /// A lookup by key found nothing.
    NoSuchResource,
    /// A request URI segment could not be interpreted.
    UriSegmentError,
    /// A file request fell outside what may be served.
    FilesLimiterError,
}

/// The JSON error bodies the API can answer with.
#[derive(Debug, PartialEq, Eq, Structural, Clone, Copy)]
pub enum JsonError {
    InternalServerError,
    NoSuchResource,
}

/// The log line an error is reported with.
pub open spec fn message_of(e: Error) -> Seq<char> {
    match e {
        Error::IndexingError { path, what } => match path {
            Some(p) => "Indexing Error at "@ + p@ + ": "@ + what@,
            None => "Indexing Error: "@ + what@,
        },
        Error::ConfigLoadError { msg } => "Error loading config: "@ + msg@,
        Error::NoSuchResource => "No such resource"@,
        Error::UriSegmentError => "Uri segment error"@,
        Error::FilesLimiterError => "Files limiter error"@,
    }
}

impl Error {
    /// Which JSON body, if any, a response for this error carries; errors that
    /// are not the client's affair collapse to an internal-server-error body.
    pub fn handle(&self) -> (r: Option<JsonError>)
        ensures
            r == match self {
                Error::FilesLimiterError => None::<JsonError>,
                Error::UriSegmentError => None::<JsonError>,
                Error::NoSuchResource => Some(JsonError::NoSuchResource),
                _ => Some(JsonError::InternalServerError),
            },
    {
        match self {
            Error::FilesLimiterError => None,
            Error::UriSegmentError => None,
            Error::NoSuchResource => Some(JsonError::NoSuchResource),
            _ => Some(JsonError::InternalServerError),
        }
    }

    /// The HTTP status code a response for this error carries.
    pub fn status_code(&self) -> (r: u16)
        ensures
            r == match self {
                Error::FilesLimiterError => 404u16,
                Error::UriSegmentError => 400u16,
                Error::NoSuchResource => 404u16,
                _ => 500u16,
            },
    {
        match self {
            Error::FilesLimiterError => 404,
            Error::UriSegmentError => 400,
            Error::NoSuchResource => 404,
            _ => 500,
        }
    }

    /// Renders the message this error is logged with.
    pub fn log(&self) -> (m: String)
        ensures
            m@ == message_of(*self),
    {
        match self {
            Error::IndexingError { path, what } => match path {
                Some(p) => {
                    let m = String::from_str("Indexing Error at ").concat(p.as_str()).concat(
                        ": ",
                    ).concat(what.as_str());
                    proof {
                        assert(m@ =~= message_of(*self));
                    }
                    m
                },
                None => {
                    let m = String::from_str("Indexing Error: ").concat(what.as_str());
                    m
                },
            },
            Error::ConfigLoadError { msg } => {
                let m = String::from_str("Error loading config: ").concat(msg.as_str());
                m
            },
            Error::NoSuchResource => String::from_str("No such resource"),
            Error::UriSegmentError => String::from_str("Uri segment error"),
            Error::FilesLimiterError => String::from_str("Files limiter error"),
        }
    }
}

} // verus!
