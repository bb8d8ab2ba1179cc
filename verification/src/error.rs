use vstd::prelude::*;
use crate::chars::concat;
use crate::path::{
    absolute_path_message, normalize_relative_path, normalize_spec, Normalized, PathError,
};

verus! {

/// Classes of failure that every operation reports.
#[derive(Debug, Clone, Copy, PartialEq, Eq, Structural)]
pub enum ErrorCode {
    NotFound,
    PermissionDenied,
    InvalidPath,
    Io,
    Parse,
    Index,
    Conflict,
}

pub open spec fn code_text(code: ErrorCode) -> Seq<char> {
    match code {
        ErrorCode::NotFound => "NOT_FOUND"@,
        ErrorCode::PermissionDenied => "PERMISSION_DENIED"@,
        ErrorCode::InvalidPath => "INVALID_PATH"@,
        ErrorCode::Io => "IO_ERROR"@,
        ErrorCode::Parse => "PARSE_ERROR"@,
        ErrorCode::Index => "INDEX_ERROR"@,
        ErrorCode::Conflict => "CONFLICT"@,
    }
}

impl ErrorCode {
    /// The code as it is written in messages.
    pub fn as_str(&self) -> (out: &'static str)
        ensures
            out@ == code_text(*self),
    {
        match self {
            ErrorCode::NotFound => "NOT_FOUND",
            ErrorCode::PermissionDenied => "PERMISSION_DENIED",
            ErrorCode::InvalidPath => "INVALID_PATH",
            ErrorCode::Io => "IO_ERROR",
            ErrorCode::Parse => "PARSE_ERROR",
            ErrorCode::Index => "INDEX_ERROR",
            ErrorCode::Conflict => "CONFLICT",
        }
    }
}

/// An error with its class, a message and an optional context.
#[derive(Debug, Clone, PartialEq, Eq)]
pub struct AppError {
    pub code: ErrorCode,
    pub message: String,
    pub context: Option<String>,
}

pub open spec fn traversal_message() -> Seq<char> {
    "Path traversal attempt detected"@
}

pub open spec fn traversal_context() -> Seq<char> {
    "Access denied: path escapes location root"@
}

pub open spec fn empty_path_message() -> Seq<char> {
    "Empty path is not allowed"@
}

/// The text of a path error.
pub open spec fn path_error_text(err: PathError) -> Seq<char> {
    match err {
        PathError::PathTraversalAttempt => traversal_message(),
        PathError::EmptyPath => empty_path_message(),
        PathError::InvalidPath(msg) => "Invalid path: "@ + msg@,
    }
}

impl PathError {
    /// The error as a line of text.
    pub fn to_text(&self) -> (out: String)
        ensures
            out@ == path_error_text(*self),
    {
        match self {
            PathError::PathTraversalAttempt => "Path traversal attempt detected".to_string(),
            PathError::EmptyPath => "Empty path is not allowed".to_string(),
            PathError::InvalidPath(msg) => concat("Invalid path: ", msg.as_str()),
        }
    }
}

impl AppError {
    /// The error's class, message and context as plain values.
    pub open spec fn view(&self) -> (ErrorCode, Seq<char>, Option<Seq<char>>) {
        (
            self.code,
            self.message@,
            match self.context {
                Some(c) => Some(c@),
                None => None,
            },
        )
    }

    pub fn new(code: ErrorCode, message: &str) -> (out: Self)
        ensures
            out@ == (code, message@, None::<Seq<char>>),
    {
        AppError { code, message: message.to_string(), context: None }
    }

    /// The same error with `context` set, replacing any earlier one.
    pub fn with_context(self, context: &str) -> (out: Self)
        ensures
            out@ == (self.code, self.message@, Some(context@)),
    {
        AppError { code: self.code, message: self.message, context: Some(context.to_string()) }
    }

    pub fn not_found(message: &str) -> (out: Self)
        ensures
            out@ == (ErrorCode::NotFound, message@, None::<Seq<char>>),
    {
        Self::new(ErrorCode::NotFound, message)
    }

    pub fn permission_denied(message: &str) -> (out: Self)
        ensures
            out@ == (ErrorCode::PermissionDenied, message@, None::<Seq<char>>),
    {
        Self::new(ErrorCode::PermissionDenied, message)
    }

    pub fn invalid_path(message: &str) -> (out: Self)
        ensures
            out@ == (ErrorCode::InvalidPath, message@, None::<Seq<char>>),
    {
        Self::new(ErrorCode::InvalidPath, message)
    }

    pub fn io(message: &str) -> (out: Self)
        ensures
            out@ == (ErrorCode::Io, message@, None::<Seq<char>>),
    {
        Self::new(ErrorCode::Io, message)
    }

    /// The line that `to_text` writes.
    pub open spec fn text_spec(&self) -> Seq<char> {
        let head = "["@ + code_text(self.code) + "] "@ + self.message@;
        match self.context {
            Some(c) => head + " (context: "@ + c@ + ")"@,
            None => head,
        }
    }

    /// The error as a line of text: the code in brackets, the message, and
    /// the context in parentheses where there is one.
    pub fn to_text(&self) -> (out: String)
        ensures
            out@ == self.text_spec(),
    {
        let a = concat("[", self.code.as_str());
        let b = concat(a.as_str(), "] ");
        let head = concat(b.as_str(), self.message.as_str());
        match &self.context {
            Some(c) => {
                let d = concat(head.as_str(), " (context: ");
                let e = concat(d.as_str(), c.as_str());
                concat(e.as_str(), ")")
            },
            None => head,
        }
    }
}

/// The application error that a path error becomes.
pub open spec fn path_error_view(err: PathError) -> (ErrorCode, Seq<char>, Option<Seq<char>>) {
    match err {
        PathError::PathTraversalAttempt => (
            ErrorCode::InvalidPath,
            traversal_message(),
            Some(traversal_context()),
        ),
        PathError::EmptyPath => (ErrorCode::InvalidPath, empty_path_message(), None),
        PathError::InvalidPath(msg) => (ErrorCode::InvalidPath, msg@, None),
    }
}

/// Turns a path error into an application error of class `InvalidPath`.
pub fn app_error_from_path(err: PathError) -> (out: AppError)
    ensures
        out@ == path_error_view(err),
{
    match err {
        PathError::PathTraversalAttempt => AppError::invalid_path(
            "Path traversal attempt detected",
        ).with_context("Access denied: path escapes location root"),
        PathError::EmptyPath => AppError::invalid_path("Empty path is not allowed"),
        PathError::InvalidPath(msg) => AppError::invalid_path(msg.as_str()),
    }
}

impl From<PathError> for AppError {
    fn from(err: PathError) -> (out: Self)
        ensures
            out@ == path_error_view(err),
    {
        app_error_from_path(err)
    }
}

impl vstd::std_specs::convert::FromSpecImpl<PathError> for AppError {
    open spec fn obeys_from_spec() -> bool {
        false
    }

    open spec fn from_spec(err: PathError) -> Self {
        arbitrary()
    }
}

/// Envelope of a command's answer.
#[derive(Debug, Clone)]
pub enum CommandResult<T> {
    Success(T),
    Failure(AppError),
}

impl<T> CommandResult<T> {
    pub fn ok(value: T) -> (out: Self)
        ensures
            out == CommandResult::Success(value),
    {
        CommandResult::Success(value)
    }

    pub fn err(error: AppError) -> (out: Self)
        ensures
            out == CommandResult::<T>::Failure(error),
    {
        CommandResult::Failure(error)
    }

    pub fn is_ok(&self) -> (out: bool)
        ensures
            out == (*self is Success),
    {
        match self {
            CommandResult::Success(_) => true,
            CommandResult::Failure(_) => false,
        }
    }

    pub fn is_err(&self) -> (out: bool)
        ensures
            out == (*self is Failure),
    {
        match self {
            CommandResult::Success(_) => false,
            CommandResult::Failure(_) => true,
        }
    }
}

/// An error as plain values: class, message, context.
pub type ErrorView = (ErrorCode, Seq<char>, Option<Seq<char>>);

/// An error without context.
pub open spec fn failure(code: ErrorCode, message: Seq<char>) -> ErrorView {
    (code, message, None::<Seq<char>>)
}

/// The error that a path is refused with.
pub open spec fn path_failure(path: Seq<char>) -> ErrorView {
    match normalize_spec(path) {
        Normalized::Traversal => (
            ErrorCode::InvalidPath,
            traversal_message(),
            Some(traversal_context()),
        ),
        Normalized::Absolute => failure(ErrorCode::InvalidPath, absolute_path_message()),
        _ => failure(ErrorCode::InvalidPath, empty_path_message()),
    }
}

/// Normalises a path, with the failure as an application error.
pub fn normalized_or_error(path: &str) -> (result: Result<String, AppError>)
    ensures
        match result {
            Ok(p) => normalize_spec(path@) == Normalized::Path(p@),
            Err(e) => !(normalize_spec(path@) is Path) && e@ == path_failure(path@),
        },
{
    match normalize_relative_path(path) {
        Ok(p) => Ok(p),
        Err(e) => Err(app_error_from_path(e)),
    }
}

} // verus!
