//! Validation results and library errors.
use vstd::prelude::*;

verus! {

/// Severity of a validation entry.
#[derive(Debug, Clone, Copy, PartialEq, Eq, Structural)]
pub enum ErrorLevel {
    /// A problem that does not make the document invalid.
    Warning,
    /// A schema violation.
    Error,
    /// A violation that stopped processing.
    Fatal,
}

/// Classification of a validation entry.
#[derive(Debug, Clone, Copy, PartialEq, Eq, Structural)]
pub enum ValidationErrorType {
    /// An element that the schema does not declare.
    UnknownElement,
    /// A required child element is absent.
    MissingRequiredElement,
    /// A child element occurs fewer times than required.
    TooFewOccurrences,
    /// A child element occurs more times than allowed.
    TooManyOccurrences,
    /// Content that the content model does not allow.
    InvalidContent,
    /// Text content outside the element's value space.
    InvalidTextContent,
    /// An attribute value outside its type, or an undeclared attribute.
    InvalidAttributeValue,
    /// A unique / key / keyref / ID / IDREF violation.
    IdentityConstraint,
    /// A referenced schema could not be loaded.
    SchemaNotFound,
    /// An element still open at the end of the input.
    UnclosedElement,
    /// Anything else.
    Other,
}

/// One validation entry: an error or a warning with its context.
#[derive(Debug, Clone)]
pub struct StructuredError {
    /// Human-readable description.
    pub message: String,
    /// Classification.
    pub error_type: ValidationErrorType,
    /// Severity.
    pub level: ErrorLevel,
    /// 1-based line of the offending node, when known.
    pub line: Option<usize>,
    /// 1-based column of the offending node, when known.
    pub column: Option<usize>,
    /// Name of the offending node.
    pub node_name: Option<String>,
    /// What the schema expected.
    pub expected: Option<String>,
    /// What the document contained.
    pub found: Option<String>,
    /// Number of identical occurrences collapsed into this entry.
    pub count: usize,
    /// Path of the open elements when the entry was made (`/a/b`).
    pub element_path: Option<String>,
    /// Positions (line, column) of the further occurrences collapsed into
    /// this entry.
    pub more_positions: Vec<(Option<usize>, Option<usize>)>,
}

/// Whether a level counts as an error (as opposed to a warning).
pub open spec fn level_is_error(l: ErrorLevel) -> bool {
    l == ErrorLevel::Error || l == ErrorLevel::Fatal
}

impl StructuredError {
    /// A new error-level entry with the given message and type.
    pub fn new(message: String, error_type: ValidationErrorType) -> (e: StructuredError)
        ensures
            e.message == message,
            e.error_type == error_type,
            e.level == ErrorLevel::Error,
            e.line is None,
            e.column is None,
            e.node_name is None,
            e.expected is None,
            e.found is None,
            e.count == 1,
            e.element_path is None,
            e.more_positions@ == Seq::<(Option<usize>, Option<usize>)>::empty(),
    {
        StructuredError {
            message,
            error_type,
            level: ErrorLevel::Error,
            line: None,
            column: None,
            node_name: None,
            expected: None,
            found: None,
            count: 1,
            element_path: None,
            more_positions: Vec::new(),
        }
    }

    /// Sets the severity.
    pub fn with_level(self, level: ErrorLevel) -> (e: StructuredError)
        ensures
            e == (StructuredError { level, ..self }),
    {
        StructuredError { level, ..self }
    }

    /// Sets the line.
    pub fn with_line(self, line: usize) -> (e: StructuredError)
        ensures
            e == (StructuredError { line: Some(line), ..self }),
    {
        StructuredError { line: Some(line), ..self }
    }

    /// Sets the column.
    pub fn with_column(self, column: usize) -> (e: StructuredError)
        ensures
            e == (StructuredError { column: Some(column), ..self }),
    {
        StructuredError { column: Some(column), ..self }
    }

    /// Sets the node name.
    pub fn with_node_name(self, name: String) -> (e: StructuredError)
        ensures
            e == (StructuredError { node_name: Some(name), ..self }),
    {
        StructuredError { node_name: Some(name), ..self }
    }

    /// Sets the expected content.
    pub fn with_expected(self, expected: String) -> (e: StructuredError)
        ensures
            e == (StructuredError { expected: Some(expected), ..self }),
    {
        StructuredError { expected: Some(expected), ..self }
    }

    /// Sets the found content.
    pub fn with_found(self, found: String) -> (e: StructuredError)
        ensures
            e == (StructuredError { found: Some(found), ..self }),
    {
        StructuredError { found: Some(found), ..self }
    }

    /// Sets the element path.
    pub fn with_element_path(self, path: String) -> (e: StructuredError)
        ensures
            e == (StructuredError { element_path: Some(path), ..self }),
    {
        StructuredError { element_path: Some(path), ..self }
    }

    /// True for error- and fatal-level entries.
    pub fn is_error(&self) -> (r: bool)
        ensures
            r == level_is_error(self.level),
    {
        match self.level {
            ErrorLevel::Warning => false,
            _ => true,
        }
    }

    /// True for warning-level entries.
    pub fn is_warning(&self) -> (r: bool)
        ensures
            r == (self.level == ErrorLevel::Warning),
    {
        match self.level {
            ErrorLevel::Warning => true,
            _ => false,
        }
    }
}

/// Errors that stop a validation run.
#[derive(Debug, Clone)]
pub enum ValidationError {
    /// The document is not well-formed XML.
    Syntax {
        /// What is wrong.
        message: String,
        /// 1-based line where the problem was found.
        line: usize,
        /// 1-based column where the problem was found.
        column: usize,
    },
    /// A referenced schema could not be fetched.
    SchemaNotFound {
        /// The schema location.
        uri: String,
    },
    /// The requested operation is not available.
    InvalidOperation(String),
}

/// The error a start tag gets when its element cannot be counted.
pub open spec fn too_many_children(r: Result<(), ValidationError>) -> bool {
    r matches Err(e) && count_overflow(e)
}

/// The error of an element that cannot be counted among its siblings.
pub open spec fn count_overflow(e: ValidationError) -> bool {
    e matches ValidationError::InvalidOperation(m) && m@ == "too many child elements"@
}

} // verus!
