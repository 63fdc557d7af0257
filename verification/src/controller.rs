//! The errors that startup can end in: a kind, and the message of the failure
//! underneath it where there is one.

use vstd::prelude::*;

verus! {

/// The characters of a borrowed text that may be absent.
pub open spec fn chars_of(text: Option<&str>) -> Option<Seq<char>> {
    match text {
        Some(text) => Some(text@),
        None => None,
    }
}

/// The characters of an owned text that may be absent.
pub open spec fn text_of(text: Option<String>) -> Option<Seq<char>> {
    match text {
        Some(text) => Some(text@),
        None => None,
    }
}

/// A text as `str`'s `Debug` formatting writes it: between double quotes, with
/// the characters that need it escaped.
pub uninterp spec fn quoted(text: Seq<char>) -> Seq<char>;

/// Calls `format!` with `{:?}` on a `str`, which goes to `<str as Debug>::fmt`.
/// The contract only gives the result its name, `quoted`: it depends on the
/// characters of `text` and on nothing else.
#[verifier::external_body]
fn quote(text: &str) -> (out: String)
    ensures
        out@ == quoted(text@),
{
    format!("{:?}", text)
}

/// The text of an error: the kind's name; then, where the kind carries a
/// text, that text in its quoted form between round brackets; then, where
/// there is a cause, a colon, a space and the cause's message.
pub open spec fn rendered(
    label: Seq<char>,
    quoted_detail: Option<Seq<char>>,
    cause: Option<Seq<char>>,
) -> Seq<char> {
    let kind = match quoted_detail {
        Some(detail) => label + "("@ + detail + ")"@,
        None => label,
    };
    match cause {
        Some(message) => kind + ": "@ + message,
        None => kind,
    }
}

/// Puts the text of an error together from the kind's name, the kind's text
/// as already quoted, and the cause's message.
pub fn render(label: &str, quoted_detail: Option<&str>, cause: Option<&str>) -> (out: String)
    ensures
        out@ == rendered(label@, chars_of(quoted_detail), chars_of(cause)),
{
    let mut out = String::from_str(label);
    if let Some(detail) = quoted_detail {
        out.append("(");
        out.append(detail);
        out.append(")");
    }
    if let Some(message) = cause {
        out.append(": ");
        out.append(message);
    }
    out
}

/// What went wrong.
#[derive(Debug)]
pub enum ErrorKind {
    /// The environment file could not be read or parsed.
    InvalidEnvFile(String),
    /// Required variables are not set.
    MissingEnvVars(String),
    /// Variables with the application's prefix are set that it does not require.
    ExtraEnvVars(String),
    /// The server stopped with a failure.
    HttpServerFail,
    /// The server could not listen on its address.
    AddressBindingFail(String),
}

/// An `ErrorKind` with its text as a sequence of characters.
pub enum ErrorKindView {
    InvalidEnvFile(Seq<char>),
    MissingEnvVars(Seq<char>),
    ExtraEnvVars(Seq<char>),
    HttpServerFail,
    AddressBindingFail(Seq<char>),
}

impl View for ErrorKind {
    type V = ErrorKindView;

    open spec fn view(&self) -> ErrorKindView {
        match self {
            ErrorKind::InvalidEnvFile(text) => ErrorKindView::InvalidEnvFile(text@),
            ErrorKind::MissingEnvVars(text) => ErrorKindView::MissingEnvVars(text@),
            ErrorKind::ExtraEnvVars(text) => ErrorKindView::ExtraEnvVars(text@),
            ErrorKind::HttpServerFail => ErrorKindView::HttpServerFail,
            ErrorKind::AddressBindingFail(text) => ErrorKindView::AddressBindingFail(text@),
        }
    }
}

impl ErrorKindView {
    /// The name of the kind.
    pub open spec fn label(self) -> Seq<char> {
        match self {
            ErrorKindView::InvalidEnvFile(_) => "InvalidEnvFile"@,
            ErrorKindView::MissingEnvVars(_) => "MissingEnvVars"@,
            ErrorKindView::ExtraEnvVars(_) => "ExtraEnvVars"@,
            ErrorKindView::HttpServerFail => "HttpServerFail"@,
            ErrorKindView::AddressBindingFail(_) => "AddressBindingFail"@,
        }
    }

    /// The text that the kind carries, if it carries one.
    pub open spec fn detail(self) -> Option<Seq<char>> {
        match self {
            ErrorKindView::InvalidEnvFile(text) => Some(text),
            ErrorKindView::MissingEnvVars(text) => Some(text),
            ErrorKindView::ExtraEnvVars(text) => Some(text),
            ErrorKindView::HttpServerFail => None,
            ErrorKindView::AddressBindingFail(text) => Some(text),
        }
    }
}

impl ErrorKind {
    /// The name of the kind.
    pub fn label(&self) -> (name: &'static str)
        ensures
            name@ == self@.label(),
    {
        match self {
            ErrorKind::InvalidEnvFile(_) => "InvalidEnvFile",
            ErrorKind::MissingEnvVars(_) => "MissingEnvVars",
            ErrorKind::ExtraEnvVars(_) => "ExtraEnvVars",
            ErrorKind::HttpServerFail => "HttpServerFail",
            ErrorKind::AddressBindingFail(_) => "AddressBindingFail",
        }
    }

    /// The text that the kind carries, if it carries one.
    pub fn detail(&self) -> (text: Option<&str>)
        ensures
            chars_of(text) == self@.detail(),
    {
        match self {
            ErrorKind::InvalidEnvFile(text) => Some(text.as_str()),
            ErrorKind::MissingEnvVars(text) => Some(text.as_str()),
            ErrorKind::ExtraEnvVars(text) => Some(text.as_str()),
            ErrorKind::HttpServerFail => None,
            ErrorKind::AddressBindingFail(text) => Some(text.as_str()),
        }
    }
}

impl PartialEq for ErrorKind {
    /// Two kinds are equal when they are the same variant with the same text.
    fn eq(&self, other: &Self) -> (same: bool) {
        match (self, other) {
            (ErrorKind::InvalidEnvFile(a), ErrorKind::InvalidEnvFile(b)) => *a == *b,
            (ErrorKind::MissingEnvVars(a), ErrorKind::MissingEnvVars(b)) => *a == *b,
            (ErrorKind::ExtraEnvVars(a), ErrorKind::ExtraEnvVars(b)) => *a == *b,
            (ErrorKind::HttpServerFail, ErrorKind::HttpServerFail) => true,
            (ErrorKind::AddressBindingFail(a), ErrorKind::AddressBindingFail(b)) => *a == *b,
            _ => false,
        }
    }
}

impl vstd::std_specs::cmp::PartialEqSpecImpl for ErrorKind {
    open spec fn obeys_eq_spec() -> bool {
        true
    }

    open spec fn eq_spec(&self, other: &Self) -> bool {
        self@ == other@
    }
}

/// An error of the application: its kind, and the message of the failure that
/// caused it, where one did.
#[derive(Debug)]
pub struct AppError {
    kind: ErrorKind,
    original_err: Option<String>,
}

/// An `AppError` with its texts as sequences of characters.
pub struct AppErrorView {
    pub kind: ErrorKindView,
    pub cause: Option<Seq<char>>,
}

impl AppErrorView {
    /// The text of the error.
    pub open spec fn text(self) -> Seq<char> {
        rendered(
            self.kind.label(),
            match self.kind.detail() {
                Some(detail) => Some(quoted(detail)),
                None => None,
            },
            self.cause,
        )
    }
}

impl View for AppError {
    type V = AppErrorView;

    closed spec fn view(&self) -> AppErrorView {
        AppErrorView { kind: self.kind@, cause: text_of(self.original_err) }
    }
}

impl AppError {
    /// An error of the given kind, caused by a failure with the given message.
    pub fn new(kind: ErrorKind, original_err: Option<String>) -> (error: Self)
        ensures
            error@ == (AppErrorView { kind: kind@, cause: text_of(original_err) }),
    {
        Self { kind, original_err }
    }

    /// The kind of the error.
    pub fn kind(&self) -> (kind: &ErrorKind)
        ensures
            kind@ == self@.kind,
    {
        &self.kind
    }

    /// The message of the failure that caused the error, if one did.
    pub fn cause(&self) -> (cause: Option<&str>)
        ensures
            chars_of(cause) == self@.cause,
    {
        match &self.original_err {
            Some(message) => Some(message.as_str()),
            None => None,
        }
    }
}

impl AppError {
    /// The text of the error, as it is shown to an operator.
    pub fn to_text(&self) -> (out: String)
        ensures
            out@ == self@.text(),
    {
        match self.kind.detail() {
            Some(detail) => {
                let detail_quoted = quote(detail);
                render(self.kind.label(), Some(detail_quoted.as_str()), self.cause())
            },
            None => render(self.kind.label(), None, self.cause()),
        }
    }
}

impl PartialEq for AppError {
    /// Two errors are equal when their kinds are equal and both have no
    /// cause, or both have causes with the same message.
    fn eq(&self, other: &Self) -> (same: bool) {
        self.kind == other.kind && match (&self.original_err, &other.original_err) {
            (Some(a), Some(b)) => *a == *b,
            (None, None) => true,
            _ => false,
        }
    }
}

impl vstd::std_specs::cmp::PartialEqSpecImpl for AppError {
    open spec fn obeys_eq_spec() -> bool {
        true
    }

    open spec fn eq_spec(&self, other: &Self) -> bool {
        self@ == other@
    }
}

} // verus!
