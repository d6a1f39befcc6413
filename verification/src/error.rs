use crate::xml::Pos;
use vstd::prelude::*;

verus! {

/// What went wrong, with the position and names a config author needs.
#[derive(Debug, PartialEq)]
pub enum ErrorKind {
    /// The document is not well-formed markup.
    XmlSyntax { msg: String },
    /// An element stood where one with another tag was required.
    TagMismatch { pos: Pos, expected: String, actual: String },
    /// A required attribute is absent.
    MissingAttribute { pos: Pos, attr: String },
    /// A required child element (or top-level section) is absent.
    MissingChild { pos: Pos, child: String },
    /// Exactly one child was required; `count` were found.
    ChildCardinality { pos: Pos, count: usize },
    /// A text child was required.
    ExpectedText { pos: Pos },
    /// An interval attribute does not hold a duration.
    DurationParse { text: String },
    /// A numeric attribute does not hold an integer.
    IntParse { text: String },
    /// An element with this tag may not stand here.
    IllegalElement { pos: Pos, tag: String },
}

/// A parse failure, annotated with the section being parsed when the
/// surrounding block gave it context.
#[derive(Debug, PartialEq)]
pub struct ConfigError {
    pub section: Option<String>,
    pub kind: ErrorKind,
}

/// The mathematical image of an `ErrorKind`; the message of a syntax
/// error is not part of it.
pub enum ErrorKindView {
    XmlSyntax,
    TagMismatch { pos: Pos, expected: Seq<char>, actual: Seq<char> },
    MissingAttribute { pos: Pos, attr: Seq<char> },
    MissingChild { pos: Pos, child: Seq<char> },
    ChildCardinality { pos: Pos, count: int },
    ExpectedText { pos: Pos },
    DurationParse { text: Seq<char> },
    IntParse { text: Seq<char> },
    IllegalElement { pos: Pos, tag: Seq<char> },
}

pub struct ErrorView {
    pub section: Option<Seq<char>>,
    pub kind: ErrorKindView,
}

impl View for ErrorKind {
    type V = ErrorKindView;

    open spec fn view(&self) -> ErrorKindView {
        match *self {
            ErrorKind::XmlSyntax { msg: _ } => ErrorKindView::XmlSyntax,
            ErrorKind::TagMismatch { pos, expected, actual } => ErrorKindView::TagMismatch {
                pos,
                expected: expected@,
                actual: actual@,
            },
            ErrorKind::MissingAttribute { pos, attr } => ErrorKindView::MissingAttribute {
                pos,
                attr: attr@,
            },
            ErrorKind::MissingChild { pos, child } => ErrorKindView::MissingChild {
                pos,
                child: child@,
            },
            ErrorKind::ChildCardinality { pos, count } => ErrorKindView::ChildCardinality {
                pos,
                count: count as int,
            },
            ErrorKind::ExpectedText { pos } => ErrorKindView::ExpectedText { pos },
            ErrorKind::DurationParse { text } => ErrorKindView::DurationParse { text: text@ },
            ErrorKind::IntParse { text } => ErrorKindView::IntParse { text: text@ },
            ErrorKind::IllegalElement { pos, tag } => ErrorKindView::IllegalElement {
                pos,
                tag: tag@,
            },
        }
    }
}

impl View for ConfigError {
    type V = ErrorView;

    open spec fn view(&self) -> ErrorView {
        ErrorView {
            section: match self.section {
                Some(s) => Some(s@),
                None => None,
            },
            kind: self.kind@,
        }
    }
}

impl ConfigError {
    /// An error with no section context.
    pub fn plain(kind: ErrorKind) -> (r: ConfigError)
        ensures
            r@ == (ErrorView { section: None, kind: kind@ }),
    {
        ConfigError { section: None, kind }
    }

    /// The same error, annotated with the section being parsed.
    pub fn with_section(self, section: &str) -> (r: ConfigError)
        ensures
            r@ == (ErrorView { section: Some(section@), kind: self.kind@ }),
    {
        ConfigError { section: Some(section.to_owned()), kind: self.kind }
    }
}

} // verus!
