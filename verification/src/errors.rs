//! Error types for decoding a multipart body and for extracting fields.

use vstd::prelude::*;
use vstd::string::StringExecFns;

verus! {

/// A structural error that aborts a whole decode operation.
///
/// Every variant but `IoError` describes a fault of the submitted request
/// (a client error); `IoError` is a fault of the server's own storage.
#[derive(Debug, Clone, Copy, PartialEq, Eq, Structural)]
pub enum DecodeError {
    /// A part's disposition is not form-data, or it has no field name.
    HeaderError,
    /// The form holds more parts than the configured maximum.
    PartCountExceeded,
    /// The cumulative bytes of text parts exceed the text budget.
    TextBudgetExceeded,
    /// The cumulative bytes of file parts exceed the file budget.
    FileBudgetExceeded,
    /// A temporary file could not be created or written.
    IoError,
    /// A text part's bytes are not valid UTF-8; `valid_up_to` is the length
    /// of the longest prefix that is valid UTF-8.
    Utf8Error { valid_up_to: usize },
    /// The transport reported an error while producing the part stream.
    TransportError,
    /// The part stream ended before the body was complete.
    Incomplete,
}

impl DecodeError {
    /// True for the variants that blame the submitted request, false for the
    /// server-side storage fault.
    pub fn is_client_error(&self) -> (r: bool)
        ensures
            r == !(*self is IoError),
    {
        !matches!(self, DecodeError::IoError)
    }

    /// A human-readable description of the error.
    pub fn message(&self) -> (r: String)
        ensures
            *self is PartCountExceeded || *self is TextBudgetExceeded || *self
                is FileBudgetExceeded ==> r@ == "A payload reached size limit."@,
            *self is HeaderError ==> r@ == "A part had an invalid or incomplete header."@,
            *self is IoError ==> r@ == "A temporary file could not be written."@,
            *self is Utf8Error ==> r@ == "A text part was not valid UTF-8."@,
            *self is TransportError ==> r@ == "The request stream reported an error."@,
            *self is Incomplete ==> r@ == "The request body ended unexpectedly."@,
    {
        match self {
            DecodeError::HeaderError => String::from_str("A part had an invalid or incomplete header."),
            DecodeError::PartCountExceeded => String::from_str("A payload reached size limit."),
            DecodeError::TextBudgetExceeded => String::from_str("A payload reached size limit."),
            DecodeError::FileBudgetExceeded => String::from_str("A payload reached size limit."),
            DecodeError::IoError => String::from_str("A temporary file could not be written."),
            DecodeError::Utf8Error { .. } => String::from_str("A text part was not valid UTF-8."),
            DecodeError::TransportError => String::from_str("The request stream reported an error."),
            DecodeError::Incomplete => String::from_str("The request body ended unexpectedly."),
        }
    }
}

/// The ghost description of a [`GetError`]: the same three variants over
/// character sequences.
pub ghost enum GetErrorModel {
    NotFound(Seq<char>),
    TypeError(Seq<char>, Seq<char>),
    DuplicateField(Seq<char>),
}

/// An error from extracting one named field from a decoded form. It is local
/// to that field: other fields of the form can still be extracted.
#[derive(Debug)]
pub enum GetError {
    /// No field of the requested kind has the given name.
    NotFound(String),
    /// A field with the given name could not be converted into the requested
    /// type; the second component names that type.
    TypeError(String, String),
    /// More than one field has the given name where exactly one or at most
    /// one was requested.
    DuplicateField(String),
}

impl GetError {
    /// Extraction errors always blame the submitted form: a missing,
    /// duplicated, or unconvertible field is a client error, never a
    /// server fault.
    pub fn is_client_error(&self) -> (r: bool)
        ensures
            r,
    {
        true
    }
}

impl View for GetError {
    type V = GetErrorModel;

    open spec fn view(&self) -> GetErrorModel {
        match self {
            GetError::NotFound(name) => GetErrorModel::NotFound(name@),
            GetError::TypeError(name, ty) => GetErrorModel::TypeError(name@, ty@),
            GetError::DuplicateField(name) => GetErrorModel::DuplicateField(name@),
        }
    }
}

impl DeepView for GetError {
    type V = GetErrorModel;

    open spec fn deep_view(&self) -> GetErrorModel {
        self.view()
    }
}

} // verus!
