//! Typed diagnostics with location and severity, accumulated across all
//! stages in an error collector. Rendering the diagnostics is left to the
//! surrounding program; the library only records them.

use vstd::prelude::*;
use vstd::string::StringExecFns;

verus! {

/// The error taxonomy, by stage.
#[derive(Debug, Clone, Copy, PartialEq, Eq, Structural)]
pub enum ErrorType {
    UnexpectedCharacter,
    InvalidToken,
    UnclosedString,
    UnexpectedToken,
    ExpectedToken,
    UnknownDirective,
    UnknownInstruction,
    InvalidOperand,
    InvalidMemoryReference,
    UndefinedLabel,
    DuplicateLabel,
    MalformedLabel,
    EncodingError,
    InvalidAddressing,
    InvalidCombination,
    SectionError,
    ElfWriteError,
    FileError,
    SyntaxError,
    SemanticError,
    InternalError,
    Other,
}

/// Severity ordering: Fatal > Error > Warning > Info. Any Fatal or Error
/// blocks final output; warnings alone never do.
#[derive(Debug, Clone, Copy, PartialEq, Eq, PartialOrd, Ord, Structural)]
pub enum ErrorSeverity {
    Fatal,
    Error,
    Warning,
    Info,
}

/// Where a diagnostic points in the source.
#[derive(Debug)]
pub struct SourceLocation {
    pub file: String,
    pub line: usize,
    pub column: usize,
    pub line_content: Option<String>,
}

impl SourceLocation {
    pub fn new(file: String, line: usize, column: usize) -> (r: Self)
        ensures
            r.file@ == file@,
            r.line == line,
            r.column == column,
            r.line_content is None,
    {
        Self { file, line, column, line_content: None }
    }

    pub fn with_line_content(self, content: String) -> (r: Self)
        ensures
            r.file@ == self.file@,
            r.line == self.line,
            r.column == self.column,
            match r.line_content {
                Some(c) => c@ == content@,
                None => false,
            },
    {
        Self { line_content: Some(content), ..self }
    }
}

/// The message of a diagnostic with optional help and note.
#[derive(Debug)]
pub struct ErrorDetail {
    pub message: String,
    pub help: Option<String>,
    pub note: Option<String>,
}

impl ErrorDetail {
    pub fn new(message: String) -> (r: Self)
        ensures
            r.message@ == message@,
            r.help is None,
            r.note is None,
    {
        Self { message, help: None, note: None }
    }

    pub fn with_help(self, help: String) -> (r: Self)
        ensures
            r.message@ == self.message@,
            r.note == self.note,
            match r.help {
                Some(h) => h@ == help@,
                None => false,
            },
    {
        Self { help: Some(help), ..self }
    }

    pub fn with_note(self, note: String) -> (r: Self)
        ensures
            r.message@ == self.message@,
            r.help == self.help,
            match r.note {
                Some(n) => n@ == note@,
                None => false,
            },
    {
        Self { note: Some(note), ..self }
    }
}

/// One diagnostic.
#[derive(Debug)]
pub struct Error {
    pub error_type: ErrorType,
    pub location: Option<SourceLocation>,
    pub detail: ErrorDetail,
    pub sub_errors: Vec<Error>,
    pub severity: ErrorSeverity,
}

impl Error {
    pub fn new(error_type: ErrorType, detail: ErrorDetail) -> (r: Self)
        ensures
            r.error_type == error_type,
            r.location is None,
            r.detail == detail,
            r.sub_errors@.len() == 0,
            r.severity == ErrorSeverity::Error,
    {
        Self {
            error_type,
            location: None,
            detail,
            sub_errors: Vec::new(),
            severity: ErrorSeverity::Error,
        }
    }

    pub fn with_location(self, location: SourceLocation) -> (r: Self)
        ensures
            r.error_type == self.error_type,
            r.detail == self.detail,
            r.sub_errors == self.sub_errors,
            r.severity == self.severity,
            r.location == Some(location),
    {
        Self { location: Some(location), ..self }
    }

    pub fn with_sub_error(self, error: Error) -> (r: Self)
        ensures
            r.error_type == self.error_type,
            r.detail == self.detail,
            r.location == self.location,
            r.severity == self.severity,
            r.sub_errors@ == self.sub_errors@.push(error),
    {
        let mut s = self;
        s.sub_errors.push(error);
        s
    }

    pub fn add_sub_error(&mut self, error: Error)
        ensures
            final(self).error_type == old(self).error_type,
            final(self).detail == old(self).detail,
            final(self).location == old(self).location,
            final(self).severity == old(self).severity,
            final(self).sub_errors@ == old(self).sub_errors@.push(error),
    {
        self.sub_errors.push(error);
    }

    pub fn with_severity(self, severity: ErrorSeverity) -> (r: Self)
        ensures
            r.error_type == self.error_type,
            r.detail == self.detail,
            r.location == self.location,
            r.sub_errors == self.sub_errors,
            r.severity == severity,
    {
        Self { severity, ..self }
    }
}

/// True of the severities that block final output.
pub open spec fn spec_blocking(e: Error) -> bool {
    e.severity == ErrorSeverity::Error || e.severity == ErrorSeverity::Fatal
}

/// Number of blocking diagnostics among the first `n`.
pub open spec fn spec_error_count(s: Seq<Error>, n: int) -> int
    decreases n,
{
    if n <= 0 {
        0
    } else {
        spec_error_count(s, n - 1) + if spec_blocking(s[n - 1]) {
            1int
        } else {
            0int
        }
    }
}

/// Number of warnings among the first `n`.
pub open spec fn spec_warning_count(s: Seq<Error>, n: int) -> int
    decreases n,
{
    if n <= 0 {
        0
    } else {
        spec_warning_count(s, n - 1) + if s[n - 1].severity == ErrorSeverity::Warning {
            1int
        } else {
            0int
        }
    }
}

/// Accumulates diagnostics across all stages; the only state threaded
/// through the whole pipeline.
#[derive(Debug)]
pub struct ErrorCollector {
    pub errors: Vec<Error>,
}

impl ErrorCollector {
    pub fn new() -> (r: Self)
        ensures
            r.errors@ == Seq::<Error>::empty(),
    {
        Self { errors: Vec::new() }
    }

    pub fn add_error(&mut self, error: Error)
        ensures
            final(self).errors@ == old(self).errors@.push(error),
    {
        self.errors.push(error);
    }

    /// Records a diagnostic that has a message but no location.
    pub fn add_simple_error(&mut self, error_type: ErrorType, message: &str)
        ensures
            final(self).errors@.len() == old(self).errors@.len() + 1,
            final(self).errors@.subrange(0, old(self).errors@.len() as int) == old(self).errors@,
            ({
                let e = final(self).errors@.last();
                &&& e.error_type == error_type
                &&& e.detail.message@ == message@
                &&& e.location is None
                &&& e.severity == ErrorSeverity::Error
            }),
    {
        let ghost prior = self.errors@;
        let error = Error::new(error_type, ErrorDetail::new(message.to_owned()));
        self.add_error(error);
        proof {
            assert(self.errors@.subrange(0, prior.len() as int) =~= prior);
        }
    }

    /// Records a diagnostic with a source location. The content of the
    /// offending line is not attached here; a renderer that has the file
    /// may add it.
    pub fn add_error_with_location(
        &mut self,
        error_type: ErrorType,
        message: &str,
        file: &str,
        line: usize,
        column: usize,
    )
        ensures
            final(self).errors@.len() == old(self).errors@.len() + 1,
            final(self).errors@.subrange(0, old(self).errors@.len() as int) == old(self).errors@,
            ({
                let e = final(self).errors@.last();
                &&& e.error_type == error_type
                &&& e.detail.message@ == message@
                &&& match e.location {
                    Some(loc) => loc.file@ == file@ && loc.line == line && loc.column == column,
                    None => false,
                }
                &&& e.severity == ErrorSeverity::Error
            }),
    {
        let ghost prior = self.errors@;
        let location = SourceLocation::new(file.to_owned(), line, column);
        let error = Error::new(error_type, ErrorDetail::new(message.to_owned())).with_location(
            location,
        );
        self.add_error(error);
        proof {
            assert(self.errors@.subrange(0, prior.len() as int) =~= prior);
        }
    }


    /// Records a diagnostic with a source location and a help text, as
    /// the operand diagnostics carry their usage hints.
    pub fn add_error_with_help(
        &mut self,
        error_type: ErrorType,
        message: &str,
        help: &str,
        file: &str,
        line: usize,
        column: usize,
    )
        ensures
            final(self).errors@.len() == old(self).errors@.len() + 1,
            final(self).errors@.take(old(self).errors@.len() as int) == old(self).errors@,
            ({
                let e = final(self).errors@.last();
                &&& e.error_type == error_type
                &&& e.detail.message@ == message@
                &&& match e.detail.help {
                    Some(h) => h@ == help@,
                    None => false,
                }
                &&& match e.location {
                    Some(loc) => loc.file@ == file@ && loc.line == line && loc.column == column,
                    None => false,
                }
                &&& e.severity == ErrorSeverity::Error
            }),
    {
        let ghost prior = self.errors@;
        let location = SourceLocation::new(file.to_owned(), line, column);
        let detail = ErrorDetail::new(message.to_owned()).with_help(help.to_owned());
        let error = Error::new(error_type, detail).with_location(location);
        self.add_error(error);
        proof {
            assert(self.errors@.take(prior.len() as int) =~= prior);
        }
    }

    /// True when some recorded diagnostic blocks output (severity Error
    /// or Fatal); warnings and infos alone do not.
    pub fn has_errors(&self) -> (b: bool)
        ensures
            b == exists|i: int| 0 <= i < self.errors@.len() && spec_blocking(#[trigger] self.errors@[i]),
    {
        let mut i: usize = 0;
        while i < self.errors.len()
            invariant
                i <= self.errors@.len(),
                forall|j: int| 0 <= j < i ==> !spec_blocking(#[trigger] self.errors@[j]),
            decreases self.errors.len() - i,
        {
            let sev = self.errors[i].severity;
            if sev == ErrorSeverity::Error || sev == ErrorSeverity::Fatal {
                assert(spec_blocking(self.errors@[i as int]));
                return true;
            }
            i = i + 1;
        }
        false
    }

    /// True when some recorded diagnostic is fatal.
    pub fn has_fatal_errors(&self) -> (b: bool)
        ensures
            b == exists|i: int|
                0 <= i < self.errors@.len() && (#[trigger] self.errors@[i]).severity
                    == ErrorSeverity::Fatal,
    {
        let mut i: usize = 0;
        while i < self.errors.len()
            invariant
                i <= self.errors@.len(),
                forall|j: int|
                    0 <= j < i ==> (#[trigger] self.errors@[j]).severity != ErrorSeverity::Fatal,
            decreases self.errors.len() - i,
        {
            if self.errors[i].severity == ErrorSeverity::Fatal {
                return true;
            }
            i = i + 1;
        }
        false
    }

    /// Number of diagnostics of severity Error or Fatal.
    pub fn error_count(&self) -> (n: usize)
        ensures
            n == spec_error_count(self.errors@, self.errors@.len() as int),
    {
        let mut i: usize = 0;
        let mut n: usize = 0;
        while i < self.errors.len()
            invariant
                i <= self.errors@.len(),
                n <= i,
                n == spec_error_count(self.errors@, i as int),
            decreases self.errors.len() - i,
        {
            let sev = self.errors[i].severity;
            if sev == ErrorSeverity::Error || sev == ErrorSeverity::Fatal {
                n = n + 1;
            }
            i = i + 1;
        }
        n
    }

    /// Number of diagnostics of severity Warning.
    pub fn warning_count(&self) -> (n: usize)
        ensures
            n == spec_warning_count(self.errors@, self.errors@.len() as int),
    {
        let mut i: usize = 0;
        let mut n: usize = 0;
        while i < self.errors.len()
            invariant
                i <= self.errors@.len(),
                n <= i,
                n == spec_warning_count(self.errors@, i as int),
            decreases self.errors.len() - i,
        {
            if self.errors[i].severity == ErrorSeverity::Warning {
                n = n + 1;
            }
            i = i + 1;
        }
        n
    }

    /// Drops every recorded diagnostic.
    pub fn clear(&mut self)
        ensures
            final(self).errors@ == Seq::<Error>::empty(),
    {
        self.errors.clear();
    }
}

/// A tokenization diagnostic near a token.
pub fn token_error(message: String, file: String, line: usize, column: usize, _token: &str) -> (e:
    Error)
    ensures
        e.error_type == ErrorType::InvalidToken,
        e.detail.message@ == message@,
        match e.location {
            Some(loc) => loc.file@ == file@ && loc.line == line && loc.column == column,
            None => false,
        },
        e.severity == ErrorSeverity::Error,
{
    let detail = ErrorDetail::new(message).with_help(
        String::from_str("Check the syntax near the reported token"),
    );
    let location = SourceLocation::new(file, line, column);
    Error::new(ErrorType::InvalidToken, detail).with_location(location)
}

/// A parsing diagnostic, optionally carrying the offending line.
pub fn parse_error(
    message: String,
    file: String,
    line: usize,
    column: usize,
    line_content: Option<String>,
) -> (e: Error)
    ensures
        e.error_type == ErrorType::SyntaxError,
        e.detail.message@ == message@,
        match e.location {
            Some(loc) => loc.file@ == file@ && loc.line == line && loc.column == column,
            None => false,
        },
        e.severity == ErrorSeverity::Error,
{
    let detail = ErrorDetail::new(message);
    let mut location = SourceLocation::new(file, line, column);
    if let Some(content) = line_content {
        location = location.with_line_content(content);
    }
    Error::new(ErrorType::SyntaxError, detail).with_location(location)
}

/// A label-resolution diagnostic.
pub fn label_error(message: String, _label: &str) -> (e: Error)
    ensures
        e.error_type == ErrorType::UndefinedLabel,
        e.detail.message@ == message@,
        e.location is None,
        e.severity == ErrorSeverity::Error,
{
    let detail = ErrorDetail::new(message).with_help(
        String::from_str("Check the declaration and usage of the label"),
    );
    Error::new(ErrorType::UndefinedLabel, detail)
}

/// An encoding diagnostic.
pub fn encoding_error(message: String, _instruction: &str) -> (e: Error)
    ensures
        e.error_type == ErrorType::EncodingError,
        e.detail.message@ == message@,
        e.location is None,
        e.severity == ErrorSeverity::Error,
{
    let detail = ErrorDetail::new(message).with_help(
        String::from_str("Check the instruction and its operands"),
    );
    Error::new(ErrorType::EncodingError, detail)
}

/// A file-system diagnostic.
pub fn file_error(message: String, _path: &str) -> (e: Error)
    ensures
        e.error_type == ErrorType::FileError,
        e.detail.message@ == message@,
        e.location is None,
        e.severity == ErrorSeverity::Error,
{
    let detail = ErrorDetail::new(message).with_help(
        String::from_str("Check that the file exists and is accessible"),
    );
    Error::new(ErrorType::FileError, detail)
}

/// An internal diagnostic; always fatal.
pub fn internal_error(message: String) -> (e: Error)
    ensures
        e.error_type == ErrorType::InternalError,
        e.detail.message@ == message@,
        e.location is None,
        e.severity == ErrorSeverity::Fatal,
{
    let detail = ErrorDetail::new(message).with_note(
        String::from_str("This is an internal error and should be reported"),
    );
    Error::new(ErrorType::InternalError, detail).with_severity(ErrorSeverity::Fatal)
}

} // verus!
