//! Diagnostics: the kinds of failure, a failure with its message and
//! position, and the constructors that the rest of the library reports with.

use vstd::prelude::*;
use vstd::string::StringExecFns;
use crate::position::Position;
use crate::position::PositionView;

verus! {

/// The kinds of diagnostic.
#[derive(Debug, Clone, Copy, PartialEq, Eq, Structural)]
pub enum ErrorTypes {
    UnclosedBlock,
    UnclosedString,
    UnclosedStatement,
    InvalidStatement,
    UnexpectedSymbol,
    MismatchedTypes,
}

impl ErrorTypes {
    /// The words that name the kind in a rendered diagnostic.
    pub open spec fn label(self) -> Seq<char> {
        match self {
            ErrorTypes::UnclosedString => "Unclosed String"@,
            ErrorTypes::UnclosedBlock => "Unclosed Block"@,
            ErrorTypes::UnclosedStatement => "Unclosed Statement"@,
            ErrorTypes::InvalidStatement => "Invalid Statement"@,
            ErrorTypes::UnexpectedSymbol => "Unexpected Symbol"@,
            ErrorTypes::MismatchedTypes => "Mismatched Types"@,
        }
    }

    /// The words that name the kind.
    fn label_str(&self) -> (s: &'static str)
        ensures
            s@ == self.label(),
    {
        match self {
            ErrorTypes::UnclosedString => "Unclosed String",
            ErrorTypes::UnclosedBlock => "Unclosed Block",
            ErrorTypes::UnclosedStatement => "Unclosed Statement",
            ErrorTypes::InvalidStatement => "Invalid Statement",
            ErrorTypes::UnexpectedSymbol => "Unexpected Symbol",
            ErrorTypes::MismatchedTypes => "Mismatched Types",
        }
    }

    /// The words that name the kind.
    pub fn to_string(&self) -> (s: String)
        ensures
            s@ == self.label(),
    {
        self.label_str().to_string()
    }
}

/// What a [`CompilerError`] stands for.
pub struct ErrorView {
    pub kind: ErrorTypes,
    pub message: Seq<char>,
    pub position: PositionView,
}

impl ErrorView {
    /// The rendering `<kind>: <message> at <file>:<row>:<column>`.
    pub open spec fn text(self) -> Seq<char> {
        self.kind.label() + ": "@ + self.message + " at "@ + self.position.text()
    }
}

/// A diagnostic: a kind, a message and the position it points at.
pub struct CompilerError {
    message: String,
    position: Position,
    error_type: ErrorTypes,
}

impl View for CompilerError {
    type V = ErrorView;

    closed spec fn view(&self) -> ErrorView {
        ErrorView { kind: self.error_type, message: self.message@, position: self.position@ }
    }
}

impl CompilerError {
    /// A diagnostic of these three parts.
    pub fn new(error_type: ErrorTypes, message: String, position: Position) -> (e: CompilerError)
        ensures
            e@ == (ErrorView { kind: error_type, message: message@, position: position@ }),
    {
        CompilerError { message, position, error_type }
    }

    /// The kind of the diagnostic.
    pub fn error_type(&self) -> (k: ErrorTypes)
        ensures
            k == self@.kind,
    {
        self.error_type
    }

    /// What the diagnostic says.
    pub fn message(&self) -> (m: &str)
        ensures
            m@ == self@.message,
    {
        self.message.as_str()
    }

    /// Where the diagnostic points.
    pub fn position(&self) -> (p: &Position)
        ensures
            p@ == self@.position,
    {
        &self.position
    }

    /// The rendering `<kind>: <message> at <file>:<row>:<column>`.
    pub fn to_string(&self) -> (s: String)
        ensures
            s@ == self@.text(),
    {
        let mut s = self.error_type.to_string();
        s.append(": ");
        s.append(self.message.as_str());
        s.append(" at ");
        self.position.write_to(&mut s);
        assert(s@ =~= self@.text());
        s
    }
}

/// Why an operation failed: with a diagnostic of the language, or with a
/// plain message about the surroundings of a run.
pub enum Failure {
    Compiler(CompilerError),
    Plain(String),
}

/// What a [`Failure`] stands for.
pub enum FailureView {
    Compiler(ErrorView),
    Plain(Seq<char>),
}

impl FailureView {
    /// The rendered diagnostic, or the plain message as it is.
    pub open spec fn text(self) -> Seq<char> {
        match self {
            FailureView::Compiler(e) => e.text(),
            FailureView::Plain(m) => m,
        }
    }
}

impl View for Failure {
    type V = FailureView;

    open spec fn view(&self) -> FailureView {
        match self {
            Failure::Compiler(e) => FailureView::Compiler(e@),
            Failure::Plain(m) => FailureView::Plain(m@),
        }
    }
}

impl Failure {
    /// The rendered diagnostic, or the plain message as it is.
    pub fn to_string(&self) -> (s: String)
        ensures
            s@ == self@.text(),
    {
        match self {
            Failure::Compiler(e) => e.to_string(),
            Failure::Plain(m) => m.clone(),
        }
    }
}

pub type Res<T> = Result<T, Failure>;

/// The hint that [`ErrorHandler::helpful_err`] adds to a message.
pub open spec fn with_usage_hint(message: Seq<char>, exec_file: Seq<char>) -> Seq<char> {
    message + " For help use `"@ + exec_file + " -h`"@
}

/// Builds failures. It remembers the name the program runs under, for the
/// usage hint.
pub struct ErrorHandler {
    exec_file: String,
}

impl View for ErrorHandler {
    type V = Seq<char>;

    closed spec fn view(&self) -> Seq<char> {
        self.exec_file@
    }
}

impl ErrorHandler {
    /// A handler for the program that runs under the name `exec_file`.
    pub fn new(exec_file: String) -> (h: ErrorHandler)
        ensures
            h@ == exec_file@,
    {
        ErrorHandler { exec_file }
    }

    /// A failure with the diagnostic made of the three arguments.
    pub fn compiler_err<T>(error_type: ErrorTypes, message: String, position: Position) -> (r: Res<
        T,
    >)
        ensures
            r matches Err(Failure::Compiler(e)) && e@ == (ErrorView {
                kind: error_type,
                message: message@,
                position: position@,
            }),
    {
        Err(Failure::Compiler(CompilerError::new(error_type, message, position)))
    }

    /// A failure with the plain message.
    pub fn err<T>(message: &str) -> (r: Res<T>)
        ensures
            r matches Err(Failure::Plain(m)) && m@ == message@,
    {
        Err(Failure::Plain(message.to_string()))
    }

    /// A failure with the plain message, followed by the usage hint.
    pub fn helpful_err<T>(&self, message: &str) -> (r: Res<T>)
        ensures
            r matches Err(Failure::Plain(m)) && m@ == with_usage_hint(message@, self@),
    {
        let mut m = message.to_string();
        m.append(" For help use `");
        m.append(self.exec_file.as_str());
        m.append(" -h`");
        Err(Failure::Plain(m))
    }
}

} // verus!
