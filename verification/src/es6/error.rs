//! Errors of lexical analysis and of the module rewriter, with the region of
//! source code that each one points at.

use vstd::prelude::*;

verus! {

/// A location in source code.
#[derive(Debug, Clone, Copy, PartialEq, Eq, Structural)]
pub struct Loc {
    /// 0-based byte index.
    pub pos: usize,
    /// 0-based line number.
    pub row: usize,
    /// 0-based character number on the line.
    pub col: usize,
}

/// A region of source code in a named file: a half-open range of locations.
#[derive(Debug, Clone, PartialEq, Eq)]
pub struct Span {
    pub file_name: String,
    pub start: Loc,
    pub end: Loc,
}

pub struct SpanView {
    pub file_name: Seq<char>,
    pub start: Loc,
    pub end: Loc,
}

impl View for Span {
    type V = SpanView;

    open spec fn view(&self) -> SpanView {
        SpanView { file_name: self.file_name@, start: self.start, end: self.end }
    }
}

/// Why a string literal has no value.
#[derive(Debug, Clone, Copy, PartialEq, Eq, Structural)]
pub enum StrLitError {
    /// A `\` at the end of the content.
    ExpectedEscape,
    /// Fewer than two characters after `\x`.
    ExpectedHex2,
    /// The two characters after `\x` are not a hexadecimal number.
    NotHex2,
    /// No `}` after `\u{`.
    ExpectedRbrace,
    /// The code between the braces of `\u{...}` is not a hexadecimal number.
    NotHex,
    /// The code point of a Unicode escape is not a Unicode scalar value.
    NotChar,
    /// Fewer than four characters after `\u`.
    ExpectedHex4,
    /// The four characters after `\u` are not a hexadecimal number.
    NotHex4,
}

/// What went wrong in the rewriter.
#[derive(Debug, Clone, Copy, PartialEq, Eq)]
pub enum ErrorKind {
    /// A syntactic construct was expected and not found; the string names it.
    Expected(&'static str),
    /// A string literal could not be decoded.
    ParseStrLitError(StrLitError),
    /// A string literal is outside of what the decoder can be given: it holds
    /// more than one escape sequence, an escape sequence beside a character
    /// beyond ASCII, or a braced Unicode escape.
    UnsupportedStrLit,
}

pub enum ErrorKindView {
    Expected(Seq<char>),
    ParseStrLitError(StrLitError),
    UnsupportedStrLit,
}

impl View for ErrorKind {
    type V = ErrorKindView;

    open spec fn view(&self) -> ErrorKindView {
        match *self {
            ErrorKind::Expected(s) => ErrorKindView::Expected(s@),
            ErrorKind::ParseStrLitError(e) => ErrorKindView::ParseStrLitError(e),
            ErrorKind::UnsupportedStrLit => ErrorKindView::UnsupportedStrLit,
        }
    }
}

/// An error of the rewriter.
#[derive(Debug, Clone, PartialEq, Eq)]
pub struct Error {
    pub kind: ErrorKind,
    pub span: Span,
}

pub struct ErrorView {
    pub kind: ErrorKindView,
    pub span: SpanView,
}

impl View for Error {
    type V = ErrorView;

    open spec fn view(&self) -> ErrorView {
        ErrorView { kind: self.kind@, span: self.span@ }
    }
}

/// The kinds of lexical error.
#[derive(Debug, Clone, Copy, PartialEq, Eq, Structural)]
pub enum LexErrorKind {
    /// An exponent was expected in a numeric literal.
    ExpectedExponent,
    /// The end of a template literal is missing.
    UnterminatedTemplateLiteral,
    /// The end of a string literal is missing.
    UnterminatedStringLiteral,
    /// The end of a regular expression literal is missing.
    UnterminatedRegExpLiteral,
    /// The end of a multiline comment is missing.
    UnterminatedMultilineComment,
    /// A right brace without a left one.
    UnmatchedRbrace,
    /// A character that begins no token.
    Unexpected(char),
}

/// An error of lexical analysis.
#[derive(Debug, Clone, PartialEq, Eq)]
pub struct LexError {
    pub kind: LexErrorKind,
    pub span: Span,
}

pub struct LexErrorView {
    pub kind: LexErrorKind,
    pub span: SpanView,
}

impl View for LexError {
    type V = LexErrorView;

    open spec fn view(&self) -> LexErrorView {
        LexErrorView { kind: self.kind, span: self.span@ }
    }
}

} // verus!
