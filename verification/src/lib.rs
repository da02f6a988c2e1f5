//! A JavaScript module bundler's core: module resolution, dependency
//! discovery, ECMAScript-module rewriting, and bundle and source-map emission.

pub mod bundler;
pub mod cli;
pub mod es6;
pub mod input_options;
pub mod manifest;
pub mod modules;
pub mod path_ext;
pub mod resolver;
pub mod source_maps;
pub mod stable;
pub mod text;
pub mod vlq;
pub mod worker;
pub mod writer;

use vstd::prelude::*;
use crate::es6::error::{Error, ErrorView, LexError, LexErrorView, StrLitError};

verus! {

/// How often `c` occurs among the first `k` characters of `s`.
pub open spec fn count_upto(s: Seq<char>, c: char, k: nat) -> nat
    decreases k,
{
    if k == 0 {
        0
    } else {
        count_upto(s, c, (k - 1) as nat) + if s[k - 1] == c {
            1nat
        } else {
            0nat
        }
    }
}

/// How often `c` occurs in `s`.
pub open spec fn count(s: Seq<char>, c: char) -> nat {
    count_upto(s, c, s.len())
}

/// The number of line feeds in `s`.
pub open spec fn newlines(s: Seq<char>) -> nat {
    count(s, '\n')
}

/// The number of lines of a text: one more than it has line feeds.
pub open spec fn lines(s: Seq<char>) -> nat {
    newlines(s) + 1
}

/// The lower-case hexadecimal digit for a value below 16.
pub open spec fn hex_digit(d: int) -> char {
    if d < 10 {
        (48 + d) as u8 as char
    } else {
        (87 + d) as u8 as char
    }
}

/// How a character stands in a JSON string literal: the quotation mark and
/// the backslash after a backslash; the control characters as the escape
/// sequence that JSON has for them, or else as `\u00` and two hexadecimal
/// digits; every other character as it is.
pub open spec fn json_char(c: char) -> Seq<char> {
    if c == '"' {
        seq!['\\', '"']
    } else if c == '\\' {
        seq!['\\', '\\']
    } else if c == '\u{8}' {
        seq!['\\', 'b']
    } else if c == '\t' {
        seq!['\\', 't']
    } else if c == '\n' {
        seq!['\\', 'n']
    } else if c == '\u{c}' {
        seq!['\\', 'f']
    } else if c == '\r' {
        seq!['\\', 'r']
    } else if (c as u32) < 32 {
        seq!['\\', 'u', '0', '0', hex_digit((c as u32 / 16) as int), hex_digit((c as u32 % 16) as int)]
    } else {
        seq![c]
    }
}

/// The first `k` characters of a text as they stand in a JSON string
/// literal.
pub open spec fn json_escaped(s: Seq<char>, k: nat) -> Seq<char>
    decreases k,
{
    if k == 0 {
        Seq::empty()
    } else {
        json_escaped(s, (k - 1) as nat) + json_char(s[k - 1])
    }
}

/// The JSON string literal for a text.
pub open spec fn json_quoted(s: Seq<char>) -> Seq<char> {
    seq!['"'] + json_escaped(s, s.len()) + seq!['"']
}

/// The number of line feeds in `source`.
///
/// Trusted: `memchr::Memchr::new(needle, haystack).count()` counts the bytes
/// of the haystack that equal the needle. The haystack is the UTF-8 form of
/// the text, in which the byte 10 stands for the line feed and is part of no
/// other character.
#[verifier::external_body]
fn newline_count(source: &str) -> (n: usize)
    ensures
        n == newlines(source@),
{
    memchr::Memchr::new(10u8, source.as_bytes()).count()
}

/// No character occurs more often than the text is long.
pub proof fn lemma_count_bound(s: Seq<char>, c: char, k: nat)
    requires
        k <= s.len(),
    ensures
        count_upto(s, c, k) <= k,
    decreases k,
{
    if k > 0 {
        lemma_count_bound(s, c, (k - 1) as nat);
    }
}

/// Counting in a longer text up to `k` is counting in its start.
pub proof fn lemma_count_prefix(a: Seq<char>, b: Seq<char>, c: char, k: nat)
    requires
        k <= a.len(),
    ensures
        count_upto(a + b, c, k) == count_upto(a, c, k),
    decreases k,
{
    if k > 0 {
        lemma_count_prefix(a, b, c, (k - 1) as nat);
    }
}

/// Counting over two texts in a row adds up.
pub proof fn lemma_count_upto_concat(a: Seq<char>, b: Seq<char>, c: char, k: nat)
    requires
        k <= b.len(),
    ensures
        count_upto(a + b, c, a.len() + k) == count(a, c) + count_upto(b, c, k),
    decreases k,
{
    if k == 0 {
        lemma_count_prefix(a, b, c, a.len());
    } else {
        lemma_count_upto_concat(a, b, c, (k - 1) as nat);
        assert((a + b)[a.len() + k - 1] == b[k - 1]);
    }
}

/// Counting over two texts in a row adds up.
pub proof fn lemma_count_concat(a: Seq<char>, b: Seq<char>, c: char)
    ensures
        count(a + b, c) == count(a, c) + count(b, c),
{
    lemma_count_upto_concat(a, b, c, b.len());
}

/// A text without `c` counts none.
pub proof fn lemma_count_none(s: Seq<char>, c: char, k: nat)
    requires
        k <= s.len(),
        forall|i: int| 0 <= i < k ==> s[i] != c,
    ensures
        count_upto(s, c, k) == 0,
    decreases k,
{
    if k > 0 {
        lemma_count_none(s, c, (k - 1) as nat);
    }
}

/// The number of lines of `source`. A text so long that the number does not
/// fit is left out.
pub fn count_lines(source: &str) -> (n: usize)
    requires
        source@.len() < usize::MAX,
    ensures
        n == lines(source@),
{
    proof {
        lemma_count_bound(source@, '\n', source@.len());
    }
    1 + newline_count(source)
}

/// The JSON string literal for `s`.
///
/// Trusted: this is `serde_json::to_string` on a string, which cannot fail.
/// It writes the text between quotation marks, with `\"`, `\\`, `\b`,
/// `\t`, `\n`, `\f` and `\r` for the characters that these stand for,
/// `\u00` and two lower-case hexadecimal digits for the other characters
/// below the space, and every other character as it is.
#[verifier::external_body]
fn json_string(s: &str) -> (q: String)
    ensures
        q@ == json_quoted(s@),
{
    serde_json::to_string(s).unwrap()
}

/// A character as it stands in a JSON string literal holds no line feed.
pub proof fn lemma_json_char_plain(c: char)
    ensures
        newlines(json_char(c)) == 0,
{
    let e = json_char(c);
    assert forall|i: int| 0 <= i < e.len() implies e[i] != '\n' by {
        if (c as u32) < 32 {
            assert(0 <= c as u32 / 16 < 2);
            assert(0 <= c as u32 % 16 < 16);
        }
    }
    lemma_count_none(e, '\n', e.len());
}

/// A text as it stands in a JSON string literal holds no line feed.
pub proof fn lemma_json_escaped_plain(s: Seq<char>, k: nat)
    ensures
        newlines(json_escaped(s, k)) == 0,
    decreases k,
{
    if k > 0 {
        lemma_json_escaped_plain(s, (k - 1) as nat);
        lemma_json_char_plain(s[k - 1]);
        lemma_count_concat(json_escaped(s, (k - 1) as nat), json_char(s[k - 1]), '\n');
    } else {
        lemma_count_none(Seq::<char>::empty(), '\n', 0);
    }
}

/// A JSON string literal holds no line feed.
pub proof fn lemma_json_quoted_plain(s: Seq<char>)
    ensures
        newlines(json_quoted(s)) == 0,
{
    let quote = seq!['"'];
    lemma_json_escaped_plain(s, s.len());
    lemma_count_none(quote, '\n', 1);
    lemma_count_concat(quote, json_escaped(s, s.len()), '\n');
    lemma_count_concat(quote + json_escaped(s, s.len()), quote, '\n');
}

/// The JSON string literal for `s`. It holds no line feed.
pub fn to_quoted_json_string(s: &str) -> (q: String)
    ensures
        q@ == json_quoted(s@),
        newlines(q@) == 0,
{
    proof {
        lemma_json_quoted_plain(s@);
    }
    json_string(s)
}

/// Everything that can end a run early.
#[derive(Debug)]
#[allow(inconsistent_fields)]
pub enum CliError {
    Help,
    Version,
    MissingFileName,
    ExternalMain,
    IgnoredMain,
    DuplicateOption(String),
    MissingOptionValue(String),
    UnknownOption(String),
    UnexpectedArg(String),
    BadUsage(&'static str),
    /// A path that resolves to the root; `context` is the file that asked
    /// for it, if it was not the main module.
    RequireRoot { context: Option<String>, path: String },
    EmptyModuleName { context: String },
    ModuleNotFound { context: String, name: String },
    MainNotFound { name: String },
    /// A file that is not UTF-8; `err` says where.
    InvalidUtf8 { context: String, err: String },
    /// An error of reading or writing, in its own words.
    Io(String),
    /// An error of the JSON encoder, in its own words.
    Json(String),
    /// An error of watching for changes, in its own words.
    Notify(String),
    Es6(Error),
    Lex(LexError),
    ParseStrLit(StrLitError),
    /// What a worker that panicked left behind.
    Box(String),
}

#[allow(inconsistent_fields)]
pub enum CliErrorView {
    Help,
    Version,
    MissingFileName,
    ExternalMain,
    IgnoredMain,
    DuplicateOption(Seq<char>),
    MissingOptionValue(Seq<char>),
    UnknownOption(Seq<char>),
    UnexpectedArg(Seq<char>),
    BadUsage(Seq<char>),
    RequireRoot { context: Option<Seq<char>>, path: Seq<char> },
    EmptyModuleName { context: Seq<char> },
    ModuleNotFound { context: Seq<char>, name: Seq<char> },
    MainNotFound { name: Seq<char> },
    InvalidUtf8 { context: Seq<char>, err: Seq<char> },
    Io(Seq<char>),
    Json(Seq<char>),
    Notify(Seq<char>),
    Es6(ErrorView),
    Lex(LexErrorView),
    ParseStrLit(StrLitError),
    Box(Seq<char>),
}

impl View for CliError {
    type V = CliErrorView;

    open spec fn view(&self) -> CliErrorView {
        match self {
            CliError::Help => CliErrorView::Help,
            CliError::Version => CliErrorView::Version,
            CliError::MissingFileName => CliErrorView::MissingFileName,
            CliError::ExternalMain => CliErrorView::ExternalMain,
            CliError::IgnoredMain => CliErrorView::IgnoredMain,
            CliError::DuplicateOption(s) => CliErrorView::DuplicateOption(s@),
            CliError::MissingOptionValue(s) => CliErrorView::MissingOptionValue(s@),
            CliError::UnknownOption(s) => CliErrorView::UnknownOption(s@),
            CliError::UnexpectedArg(s) => CliErrorView::UnexpectedArg(s@),
            CliError::BadUsage(s) => CliErrorView::BadUsage(s@),
            CliError::RequireRoot { context, path } => CliErrorView::RequireRoot {
                context: match context {
                    Some(c) => Some(c@),
                    None => None,
                },
                path: path@,
            },
            CliError::EmptyModuleName { context } => CliErrorView::EmptyModuleName {
                context: context@,
            },
            CliError::ModuleNotFound { context, name } => CliErrorView::ModuleNotFound {
                context: context@,
                name: name@,
            },
            CliError::MainNotFound { name } => CliErrorView::MainNotFound { name: name@ },
            CliError::InvalidUtf8 { context, err } => CliErrorView::InvalidUtf8 {
                context: context@,
                err: err@,
            },
            CliError::Io(s) => CliErrorView::Io(s@),
            CliError::Json(s) => CliErrorView::Json(s@),
            CliError::Notify(s) => CliErrorView::Notify(s@),
            CliError::Es6(e) => CliErrorView::Es6(e@),
            CliError::Lex(e) => CliErrorView::Lex(e@),
            CliError::ParseStrLit(e) => CliErrorView::ParseStrLit(*e),
            CliError::Box(s) => CliErrorView::Box(s@),
        }
    }
}

} // verus!
