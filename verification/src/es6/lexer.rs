//! The token stream that the rewriter reads.
//!
//! Lexical analysis itself is the work of the `esparse` crate. This module
//! runs it over a whole input once and keeps the tokens as plain values, so
//! that everything that reads them can be reasoned about.

use vstd::prelude::*;
use crate::es6::error::{Error, ErrorKind, ErrorKindView, ErrorView, LexError, LexErrorKind, LexErrorView, Loc, Span, SpanView, StrLitError};
use crate::text::{chars_eq, chars_of};

verus! {

/// The type of a token. Punctuators and keywords that the rewriter does not
/// look at are `Other`.
#[derive(Debug, Clone, Copy, PartialEq, Eq, Structural)]
pub enum Tt {
    Id,
    StrLitSgl,
    StrLitDbl,
    Export,
    Import,
    Default,
    Class,
    Function,
    Var,
    Const,
    Star,
    Lbrace,
    Rbrace,
    Lparen,
    Rparen,
    Comma,
    Dot,
    Eq,
    Eof,
    /// The token at which lexical analysis gave up.
    Error,
    Other,
}

/// A token: its type, the slice of source code that it covers, and the
/// whitespace and comments directly before it.
#[derive(Debug, Clone, PartialEq, Eq)]
pub struct Tok {
    pub tt: Tt,
    pub text: String,
    pub ws_before: String,
    /// Whether `ws_before` holds a line terminator.
    pub nl_before: bool,
    /// Byte offset of the token's first byte.
    pub start: usize,
    /// Byte offset after the token's last byte.
    pub end: usize,
}

pub struct TokView {
    pub tt: Tt,
    pub text: Seq<char>,
    pub ws_before: Seq<char>,
    pub nl_before: bool,
    pub start: nat,
    pub end: nat,
}

impl View for Tok {
    type V = TokView;

    open spec fn view(&self) -> TokView {
        TokView {
            tt: self.tt,
            text: self.text@,
            ws_before: self.ws_before@,
            nl_before: self.nl_before,
            start: self.start as nat,
            end: self.end as nat,
        }
    }
}

impl DeepView for Tok {
    type V = TokView;

    open spec fn deep_view(&self) -> TokView {
        self@
    }
}

/// Whether the lexical analyzer can be given this character. It decodes
/// UTF-8 by hand and rejects the four-byte sequences whose first byte is odd.
pub open spec fn lexable_char(c: char) -> bool {
    !(0x40000 <= c as u32 && (c as u32) < 0x80000) && !(0xC0000 <= c as u32 && (c as u32) < 0x100000)
}

/// Whether the lexical analyzer can be given this input.
pub open spec fn lexable(input: Seq<char>) -> bool {
    forall|i: int| 0 <= i < input.len() ==> lexable_char(#[trigger] input[i])
}

/// The tokens of an input up to and including the first end-of-file token,
/// with the coarse types that lexical analysis tells apart.
pub uninterp spec fn lexed(input: Seq<char>) -> Seq<TokView>;

/// The lexical error of an input, if it has one, found without a file name.
pub uninterp spec fn lex_failure(input: Seq<char>) -> Option<(LexErrorKind, Loc, Loc)>;

/// How many bytes a character takes in UTF-8.
pub open spec fn utf8_width(c: char) -> nat {
    if (c as u32) < 0x80 {
        1
    } else if (c as u32) < 0x800 {
        2
    } else if (c as u32) < 0x10000 {
        3
    } else {
        4
    }
}

/// Whether a character begins a new row: the line feed, the line separator
/// and the paragraph separator do; the carriage return does not.
pub open spec fn ends_row(c: char) -> bool {
    c == '\n' || c == '\u{2028}' || c == '\u{2029}'
}

/// The place that is reached from the byte offset `at`, in row `row` and
/// column `col`, before the character of index `i`, by passing over
/// characters until the byte offset is `pos` or more.
pub open spec fn located_from(input: Seq<char>, pos: nat, i: nat, at: nat, row: nat, col: nat) -> Loc
    decreases input.len() - i,
{
    if i >= input.len() || at >= pos {
        Loc { pos: at as usize, row: row as usize, col: col as usize }
    } else if ends_row(input[i as int]) {
        located_from(input, pos, i + 1, at + utf8_width(input[i as int]), row + 1, 0)
    } else {
        located_from(input, pos, i + 1, at + utf8_width(input[i as int]), row, col + 1)
    }
}

/// The line and column of a byte offset into an input, both counted from
/// zero and the column in characters, with the byte offset itself, moved
/// on to where the next character begins if it lies inside one.
pub open spec fn located(input: Seq<char>, pos: nat) -> Loc {
    located_from(input, pos, 0, 0, 0, 0)
}

/// Where skipping one assignment expression, begun at the token of the given
/// index, leaves off: the byte offset of the token then current, and the
/// construct that was missing if the expression was cut short.
pub uninterp spec fn skipped(input: Seq<char>, index: nat) -> SkippedView;

/// The value of a string literal: its content with the escape sequences
/// replaced by what they stand for.
pub uninterp spec fn str_lit(source: Seq<char>) -> Result<Seq<char>, StrLitError>;

/// What skipping an expression found missing, and where.
pub struct Missing {
    pub expected: &'static str,
    pub start: Loc,
    pub end: Loc,
}

pub struct MissingView {
    pub expected: Seq<char>,
    pub start: Loc,
    pub end: Loc,
}

impl View for Missing {
    type V = MissingView;

    open spec fn view(&self) -> MissingView {
        MissingView { expected: self.expected@, start: self.start, end: self.end }
    }
}

/// The outcome of skipping an expression.
pub struct Skipped {
    /// Byte offset of the token that is current afterwards.
    pub at: usize,
    pub missing: Option<Missing>,
}

pub struct SkippedView {
    pub at: nat,
    pub missing: Option<MissingView>,
}

impl View for Skipped {
    type V = SkippedView;

    open spec fn view(&self) -> SkippedView {
        SkippedView {
            at: self.at as nat,
            missing: match self.missing {
                Some(m) => Some(m@),
                None => None,
            },
        }
    }
}

/// The source code that a token sequence covers: each token's leading
/// whitespace and its text, in order.
pub open spec fn source_of(toks: Seq<TokView>) -> Seq<char>
    decreases toks.len(),
{
    if toks.len() == 0 {
        Seq::empty()
    } else {
        source_of(toks.drop_last()) + toks.last().ws_before + toks.last().text
    }
}

/// Whether lexical analysis gave up somewhere in the sequence.
pub open spec fn has_error(toks: Seq<TokView>) -> bool {
    exists|i: int| 0 <= i < toks.len() && (#[trigger] toks[i]).tt == Tt::Error
}

/// Whether a type is one of those that lexical analysis tells apart.
pub open spec fn coarse(tt: Tt) -> bool {
    tt == Tt::Id || tt == Tt::StrLitSgl || tt == Tt::StrLitDbl || tt == Tt::Eof || tt == Tt::Error
        || tt == Tt::Other
}

/// What holds of every token sequence that lexical analysis gives for
/// `input`: its types are those that analysis tells apart, it ends with
/// its only end-of-file token, identifiers hold no line feed, the end of
/// file has no text, no token lies outside of the input, and, unless
/// analysis gave up, the tokens with their leading whitespace make up the
/// input.
pub open spec fn scanned(toks: Seq<TokView>, input: Seq<char>) -> bool {
    &&& !has_error(toks) ==> source_of(toks) == input
    &&& toks.len() > 0 ==> toks.last().text.len() == 0
    &&& forall|i: int| 0 <= i < toks.len() ==> coarse((#[trigger] toks[i]).tt)
    &&& forall|i: int|
        0 <= i < toks.len() && (#[trigger] toks[i]).tt == Tt::Id ==> !toks[i].text.contains('\n')
    &&& toks.len() > 0
    &&& toks.last().tt == Tt::Eof
    &&& forall|i: int| 0 <= i < toks.len() - 1 ==> (#[trigger] toks[i]).tt != Tt::Eof
    &&& forall|i: int|
        0 <= i < toks.len() ==> (#[trigger] toks[i]).start <= toks[i].end
            <= vstd::utf8::encode_utf8(input).len()
}

/// Runs lexical analysis over the whole input.
///
/// Trusted: this drives `esparse::lex::Lexer` from its first token to the
/// first end-of-file token and copies each token's fields; of the token type
/// it keeps whether it is an identifier, a string literal of either kind, the
/// end of file or the error token. The result is a function of the input
/// alone. The analyzer stops at the end of file, hands out identifiers
/// without line terminators, gives the end of file no text, takes its
/// offsets from the input, and,
/// until it gives up, cuts the input into whitespace and tokens without
/// dropping anything. It panics on a character that is not `lexable_char`,
/// which is left out.
#[verifier::external_body]
fn lex_tokens(input: &str) -> (out: Vec<Tok>)
    requires
        lexable(input@),
    ensures
        out.deep_view() == lexed(input@),
        scanned(out.deep_view(), input@),
{
    let mut lexer = esparse::lex::Lexer::new_unnamed(input);
    let mut out = Vec::new();
    loop {
        let t = lexer.here();
        let tt = match t.tt {
            esparse::lex::Tt::Id(_) => Tt::Id,
            esparse::lex::Tt::StrLitSgl(_) => Tt::StrLitSgl,
            esparse::lex::Tt::StrLitDbl(_) => Tt::StrLitDbl,
            esparse::lex::Tt::Eof => Tt::Eof,
            esparse::lex::Tt::Err => Tt::Error,
            _ => Tt::Other,
        };
        out.push(Tok { tt, text: t.tt.as_str().to_owned(), ws_before: t.ws_before.to_owned(), nl_before: t.nl_before, start: t.span.start, end: t.span.end });
        if lexer.next().is_none() { return out; }
    }
}

/// A lexical error with its two locations put together.
pub open spec fn failure_of(
    raw: Option<(LexErrorKind, usize, usize, usize, usize, usize, usize)>,
) -> Option<(LexErrorKind, Loc, Loc)> {
    match raw {
        Some((kind, p, r, c, q, s, d)) => Some(
            (kind, Loc { pos: p, row: r, col: c }, Loc { pos: q, row: s, col: d }),
        ),
        None => None,
    }
}

/// The lexical error of the input, if lexical analysis ends in one.
///
/// Trusted: this runs `esparse::lex::Lexer` to the end of the input and
/// hands back what `Lexer::take_error` gives, variant for variant and field
/// for field. The result is a function of the input alone.
#[verifier::external_body]
fn lex_error(input: &str) -> (out: Option<(LexErrorKind, usize, usize, usize, usize, usize, usize)>)
    requires
        lexable(input@),
    ensures
        failure_of(out) == lex_failure(input@),
{
    let mut lexer = esparse::lex::Lexer::new_unnamed(input);
    while lexer.next().is_some() {}
    let e = lexer.take_error()?;
    let (a, b) = (e.span.start, e.span.end);
    let kind = match e.kind {
        esparse::lex::ErrorKind::ExpectedExponent => LexErrorKind::ExpectedExponent,
        esparse::lex::ErrorKind::UnterminatedTemplateLiteral => LexErrorKind::UnterminatedTemplateLiteral,
        esparse::lex::ErrorKind::UnterminatedStringLiteral => LexErrorKind::UnterminatedStringLiteral,
        esparse::lex::ErrorKind::UnterminatedRegExpLiteral => LexErrorKind::UnterminatedRegExpLiteral,
        esparse::lex::ErrorKind::UnterminatedMultilineComment => LexErrorKind::UnterminatedMultilineComment,
        esparse::lex::ErrorKind::UnmatchedRbrace => LexErrorKind::UnmatchedRbrace,
        esparse::lex::ErrorKind::Unexpected(c) => LexErrorKind::Unexpected(c),
    };
    Some((kind, a.pos, a.row, a.col, b.pos, b.row, b.col))
}

/// The line and column of the byte offset `pos`.
///
/// Trusted: this is `esparse::lex::Lexer::recover_loc`, which scans the input
/// from its start, character by character, until it is at the offset or
/// beyond it. It counts a row for each line feed, line separator and
/// paragraph separator that it passes, and a column for each other
/// character since the last of them. It does not return for an offset
/// beyond the input, which is left out.
#[verifier::external_body]
fn locate(input: &str, pos: usize) -> (loc: Loc)
    requires
        lexable(input@),
        pos <= vstd::utf8::encode_utf8(input@).len(),
    ensures
        loc == located(input@, pos as nat),
{
    let loc = esparse::lex::Lexer::new_unnamed(input).recover_loc(pos);
    Loc { pos: loc.pos, row: loc.row, col: loc.col }
}

/// Skips one assignment expression that begins at the token of index `index`.
///
/// Trusted: this moves a fresh `esparse::lex::Lexer` forward by `index`
/// tokens, `index` being the index of one of its tokens, and calls
/// `esparse::skip::expr` with `Prec::NoComma` on it. It hands back the
/// offset of the token that is current afterwards, and what the error says
/// if there is one. The result is a function of input and index.
#[verifier::external_body]
fn skip_expr(input: &str, index: usize) -> (out: Skipped)
    requires
        lexable(input@),
        index < lexed(input@).len(),
    ensures
        out@ == skipped(input@, index as nat),
{
    let mut lexer = esparse::lex::Lexer::new_unnamed(input);
    for _ in 0..index {
        lexer.advance();
    }
    let missing = match esparse::skip::expr(&mut lexer, esparse::skip::Prec::NoComma) {
        Ok(()) => None,
        Err(e) => Some(Missing {
            expected: match e.kind { esparse::skip::ErrorKind::Expected(s) => s },
            start: Loc { pos: e.span.start.pos, row: e.span.start.row, col: e.span.start.col },
            end: Loc { pos: e.span.end.pos, row: e.span.end.row, col: e.span.end.col },
        }),
    };
    Skipped { at: lexer.here().span.start, missing }
}

/// Whether every character of a text is ASCII.
pub open spec fn all_ascii(source: Seq<char>) -> bool {
    forall|i: int| 0 <= i < source.len() ==> (#[trigger] source[i] as u32) < 128
}

/// Whether the string-literal decoder can be given `source`: it begins and
/// ends with an ASCII character, its quotation marks; and it either holds
/// no backslash, or is all ASCII and holds one backslash, and that not
/// before `u{`. Outside of this the decoder slices its input at offsets that
/// it has miscounted.
pub open spec fn decodable(source: Seq<char>) -> bool {
    &&& source.len() >= 2
    &&& (source[0] as u32) < 128
    &&& (source.last() as u32) < 128
    &&& source.contains('\\') ==> all_ascii(source)
    &&& forall|i: int, j: int|
        0 <= i < j < source.len() ==> !(source[i] == '\\' && source[j] == '\\')
    &&& forall|i: int|
        0 <= i && i + 2 < source.len() ==> !(#[trigger] source[i] == '\\' && source[i + 1] == 'u'
            && source[i + 2] == '{')
}

/// A decoded value, or the error, with the value as a sequence.
pub open spec fn value_view(r: Result<String, StrLitError>) -> Result<Seq<char>, StrLitError> {
    match r {
        Ok(v) => Ok(v@),
        Err(e) => Err(e),
    }
}

/// The value of a literal that holds no escape sequence: the text between
/// its quotation marks.
pub open spec fn plain_value(source: Seq<char>) -> Result<Seq<char>, StrLitError> {
    Ok(source.subrange(1, source.len() - 1))
}

/// The value of the string literal `source`.
///
/// Trusted: this is `esparse::lex::str_lit_value`, with its error handed
/// back variant for variant. The result is a function of the literal alone.
/// A literal without a backslash has the text between its quotation marks as
/// its value.
#[verifier::external_body]
fn decode_str_lit(source: &str) -> (out: Result<String, StrLitError>)
    requires
        decodable(source@),
    ensures
        value_view(out) == str_lit(source@),
        !source@.contains('\\') ==> value_view(out) == plain_value(source@),
{
    match esparse::lex::str_lit_value(source) {
        Ok(v) => Ok(v.into_owned()),
        Err(esparse::lex::ParseStrLitError::ExpectedEscape) => Err(StrLitError::ExpectedEscape),
        Err(esparse::lex::ParseStrLitError::ExpectedHex2) => Err(StrLitError::ExpectedHex2),
        Err(esparse::lex::ParseStrLitError::NotHex2) => Err(StrLitError::NotHex2),
        Err(esparse::lex::ParseStrLitError::ExpectedRbrace) => Err(StrLitError::ExpectedRbrace),
        Err(esparse::lex::ParseStrLitError::NotHex) => Err(StrLitError::NotHex),
        Err(esparse::lex::ParseStrLitError::NotChar) => Err(StrLitError::NotChar),
        Err(esparse::lex::ParseStrLitError::ExpectedHex4) => Err(StrLitError::ExpectedHex4),
        Err(esparse::lex::ParseStrLitError::NotHex4) => Err(StrLitError::NotHex4),
    }
}

/// The type of a token that lexical analysis left as `Other`, told by its
/// text.
pub open spec fn keyword(text: Seq<char>) -> Tt {
    if text == "export"@ {
        Tt::Export
    } else if text == "import"@ {
        Tt::Import
    } else if text == "default"@ {
        Tt::Default
    } else if text == "class"@ {
        Tt::Class
    } else if text == "function"@ {
        Tt::Function
    } else if text == "var"@ {
        Tt::Var
    } else if text == "const"@ {
        Tt::Const
    } else if text == "*"@ {
        Tt::Star
    } else if text == "{"@ {
        Tt::Lbrace
    } else if text == "}"@ {
        Tt::Rbrace
    } else if text == "("@ {
        Tt::Lparen
    } else if text == ")"@ {
        Tt::Rparen
    } else if text == ","@ {
        Tt::Comma
    } else if text == "."@ {
        Tt::Dot
    } else if text == "="@ {
        Tt::Eq
    } else {
        Tt::Other
    }
}

/// A token with its final type.
pub open spec fn refine(t: TokView) -> TokView {
    TokView { tt: if t.tt == Tt::Other { keyword(t.text) } else { t.tt }, ..t }
}

/// A token sequence with its final types.
pub open spec fn refined(toks: Seq<TokView>) -> Seq<TokView> {
    Seq::new(toks.len(), |i: int| refine(toks[i]))
}

/// Whether `text` is the word `word`.
pub fn is_word(text: &Vec<char>, word: &str) -> (r: bool)
    ensures
        r == (text@ == word@),
{
    let w = chars_of(word);
    chars_eq(text, &w)
}

fn keyword_of(text: &Vec<char>) -> (tt: Tt)
    ensures
        tt == keyword(text@),
{
    if is_word(text, "export") {
        Tt::Export
    } else if is_word(text, "import") {
        Tt::Import
    } else if is_word(text, "default") {
        Tt::Default
    } else if is_word(text, "class") {
        Tt::Class
    } else if is_word(text, "function") {
        Tt::Function
    } else if is_word(text, "var") {
        Tt::Var
    } else if is_word(text, "const") {
        Tt::Const
    } else if is_word(text, "*") {
        Tt::Star
    } else if is_word(text, "{") {
        Tt::Lbrace
    } else if is_word(text, "}") {
        Tt::Rbrace
    } else if is_word(text, "(") {
        Tt::Lparen
    } else if is_word(text, ")") {
        Tt::Rparen
    } else if is_word(text, ",") {
        Tt::Comma
    } else if is_word(text, ".") {
        Tt::Dot
    } else if is_word(text, "=") {
        Tt::Eq
    } else {
        Tt::Other
    }
}

fn refine_all(raw: &Vec<Tok>) -> (out: Vec<Tok>)
    ensures
        out.deep_view() == refined(raw.deep_view()),
{
    let mut out: Vec<Tok> = Vec::new();
    let mut i: usize = 0;
    while i < raw.len()
        invariant
            i <= raw@.len(),
            out@.len() == i,
            forall|k: int| 0 <= k < i ==> (#[trigger] out@[k])@ == refine(raw@[k]@),
        decreases raw@.len() - i,
    {
        let t = &raw[i];
        let tt = if t.tt == Tt::Other {
            let text = chars_of(t.text.as_str());
            keyword_of(&text)
        } else {
            t.tt
        };
        out.push(
            Tok {
                tt,
                text: t.text.clone(),
                ws_before: t.ws_before.clone(),
                nl_before: t.nl_before,
                start: t.start,
                end: t.end,
            },
        );
        i += 1;
    }
    assert(out.deep_view() =~= refined(raw.deep_view()));
    out
}

/// Whether every character of `input` can be given to lexical analysis.
pub fn is_lexable(input: &Vec<char>) -> (r: bool)
    ensures
        r == lexable(input@),
{
    let mut i: usize = 0;
    while i < input.len()
        invariant
            i <= input@.len(),
            forall|k: int| 0 <= k < i ==> lexable_char(#[trigger] input@[k]),
        decreases input@.len() - i,
    {
        let c = input[i] as u32;
        if (0x40000 <= c && c < 0x80000) || (0xC0000 <= c && c < 0x100000) {
            return false;
        }
        i += 1;
    }
    true
}

/// A lexical analyzer over one input: the tokens of the input and a position
/// among them.
pub struct Lexer {
    pub file_name: String,
    pub input: String,
    pub toks: Vec<Tok>,
    pub pos: usize,
}

impl Lexer {
    /// The tokens of the input.
    pub open spec fn tokens(&self) -> Seq<TokView> {
        self.toks.deep_view()
    }

    /// The tokens are those of the input, and the position is among them.
    pub open spec fn wf(&self) -> bool {
        &&& lexable(self.input@)
        &&& scanned(lexed(self.input@), self.input@)
        &&& self.tokens() == refined(lexed(self.input@))
        &&& self.pos < self.toks@.len()
    }

    /// An analyzer at the first token of `input`.
    pub fn new(file_name: &str, input: &str) -> (lexer: Lexer)
        requires
            lexable(input@),
        ensures
            lexer.wf(),
            lexer.pos == 0,
            lexer.input@ == input@,
            lexer.file_name@ == file_name@,
    {
        let raw = lex_tokens(input);
        let toks = refine_all(&raw);
        assert(toks@.len() == toks.deep_view().len());
        assert(raw.deep_view().len() > 0);
        Lexer { file_name: file_name.to_owned(), input: input.to_owned(), toks, pos: 0 }
    }

    /// An analyzer for an input without a file, named `<input>`.
    pub fn new_unnamed(input: &str) -> (lexer: Lexer)
        requires
            lexable(input@),
        ensures
            lexer.wf(),
            lexer.pos == 0,
            lexer.input@ == input@,
            lexer.file_name@ == "<input>"@,
    {
        Lexer::new("<input>", input)
    }

    /// An analyzer at the first token of `input`, or nothing where the input
    /// holds a character that lexical analysis cannot be given.
    pub fn try_new(file_name: &str, input: &str) -> (r: Option<Lexer>)
        ensures
            r.is_some() == lexable(input@),
            r matches Some(lexer) ==> lexer.wf() && lexer.pos == 0 && lexer.input@ == input@
                && lexer.file_name@ == file_name@,
    {
        let chars = chars_of(input);
        if is_lexable(&chars) {
            Some(Lexer::new(file_name, input))
        } else {
            None
        }
    }

    /// The current token.
    pub fn here(&self) -> (tok: &Tok)
        requires
            self.wf(),
        ensures
            tok@ == self.tokens()[self.pos as int],
    {
        &self.toks[self.pos]
    }

    /// The position after the current token. The last token, the end of
    /// file, is its own successor.
    pub open spec fn next_pos(&self) -> nat {
        if self.pos + 1 < self.toks@.len() {
            (self.pos + 1) as nat
        } else {
            self.pos as nat
        }
    }

    /// Moves to the next token.
    pub fn bump(&mut self)
        requires
            old(self).wf(),
        ensures
            final(self).wf(),
            final(self).pos == old(self).next_pos(),
            final(self).toks == old(self).toks,
            final(self).input == old(self).input,
            final(self).file_name == old(self).file_name,
    {
        if self.pos < self.toks.len() - 1 {
            self.pos = self.pos + 1;
        }
    }

    /// Moves to the next token and hands back the one that was current.
    pub fn advance(&mut self) -> (tok: Tok)
        requires
            old(self).wf(),
        ensures
            final(self).wf(),
            tok@ == old(self).tokens()[old(self).pos as int],
            final(self).pos == old(self).next_pos(),
            final(self).toks == old(self).toks,
            final(self).input == old(self).input,
            final(self).file_name == old(self).file_name,
    {
        let t = &self.toks[self.pos];
        let tok = Tok {
            tt: t.tt,
            text: t.text.clone(),
            ws_before: t.ws_before.clone(),
            nl_before: t.nl_before,
            start: t.start,
            end: t.end,
        };
        self.bump();
        tok
    }

    /// What the analyzer reads.
    pub open spec fn src(&self) -> Src {
        Src { file_name: self.file_name@, input: self.input@, toks: self.tokens() }
    }

    /// Where the analyzer is, with the output written so far.
    pub open spec fn cursor(&self, out: Seq<char>) -> Cursor {
        Cursor { pos: self.pos as int, out }
    }

    /// Only the last token is the end of file, and giving the tokens their
    /// final types changes nothing else of them.
    pub proof fn lemma_eof_is_last(&self, index: int)
        requires
            self.wf(),
            0 <= index < self.tokens().len(),
        ensures
            (self.tokens()[index].tt == Tt::Eof) == (index == self.tokens().len() - 1),
            (self.tokens()[index].tt == Tt::Id) == (lexed(self.input@)[index].tt == Tt::Id),
            (self.tokens()[index].tt == Tt::StrLitSgl) == (lexed(self.input@)[index].tt
                == Tt::StrLitSgl),
            (self.tokens()[index].tt == Tt::StrLitDbl) == (lexed(self.input@)[index].tt
                == Tt::StrLitDbl),
            (self.tokens()[index].tt == Tt::Error) == (lexed(self.input@)[index].tt == Tt::Error),
            self.tokens()[index].text == lexed(self.input@)[index].text,
            self.tokens()[index].ws_before == lexed(self.input@)[index].ws_before,
            self.tokens()[index].start == lexed(self.input@)[index].start,
            self.tokens()[index].end == lexed(self.input@)[index].end,
            self.tokens().len() == self.toks@.len(),
    {
        let raw = lexed(self.input@);
        assert(self.tokens()[index] == refine(raw[index]));
        assert(raw.last() == raw[raw.len() - 1]);
    }

    /// The type of the current token.
    pub fn tt(&self) -> (tt: Tt)
        requires
            self.wf(),
        ensures
            tt == self.tokens()[self.pos as int].tt,
    {
        self.toks[self.pos].tt
    }

    /// Whether the current token is the identifier `word`.
    pub fn at_word(&self, word: &str) -> (r: bool)
        requires
            self.wf(),
        ensures
            r == is_id(self.tokens()[self.pos as int], word@),
    {
        let t = &self.toks[self.pos];
        match t.tt {
            Tt::Id => {
                let text = chars_of(t.text.as_str());
                crate::es6::lexer::is_word(&text, word)
            },
            _ => false,
        }
    }

    /// The text of the current token.
    pub fn text(&self) -> (s: String)
        requires
            self.wf(),
        ensures
            s@ == self.tokens()[self.pos as int].text,
    {
        self.toks[self.pos].text.clone()
    }

    /// Moves past the current token, which is not the end of file, and
    /// appends the whitespace before it to `out`.
    pub fn eat(&mut self, out: &mut String)
        requires
            old(self).wf(),
            old(self).tokens()[old(self).pos as int].tt != Tt::Eof,
        ensures
            final(self).wf(),
            final(self).pos == old(self).pos + 1,
            final(self).toks == old(self).toks,
            final(self).input == old(self).input,
            final(self).file_name == old(self).file_name,
            final(out)@ == old(out)@ + old(self).tokens()[old(self).pos as int].ws_before,
            final(self).src() == old(self).src(),
            final(self).cursor(final(out)@) == old(self).cursor(old(out)@).eat(old(self).src()),
    {
        proof {
            self.lemma_eof_is_last(self.pos as int);
        }
        out.append(self.toks[self.pos].ws_before.as_str());
        self.bump();
    }

    /// Moves past the current token, which is not the end of file, and
    /// appends the whitespace before it and its text to `out`.
    pub fn eat_whole(&mut self, out: &mut String)
        requires
            old(self).wf(),
            old(self).tokens()[old(self).pos as int].tt != Tt::Eof,
        ensures
            final(self).wf(),
            final(self).pos == old(self).pos + 1,
            final(self).toks == old(self).toks,
            final(self).input == old(self).input,
            final(self).file_name == old(self).file_name,
            final(out)@ == old(out)@ + old(self).tokens()[old(self).pos as int].ws_before + old(
                self,
            ).tokens()[old(self).pos as int].text,
            final(self).src() == old(self).src(),
            final(self).cursor(final(out)@) == old(self).cursor(old(out)@).eat_whole(
                old(self).src(),
            ),
    {
        proof {
            self.lemma_eof_is_last(self.pos as int);
        }
        out.append(self.toks[self.pos].ws_before.as_str());
        out.append(self.toks[self.pos].text.as_str());
        self.bump();
    }

    /// Moves past the current token, which is not the end of file.
    pub fn skip(&mut self)
        requires
            old(self).wf(),
            old(self).tokens()[old(self).pos as int].tt != Tt::Eof,
        ensures
            final(self).wf(),
            final(self).pos == old(self).pos + 1,
            final(self).toks == old(self).toks,
            final(self).input == old(self).input,
            final(self).file_name == old(self).file_name,
            final(self).src() == old(self).src(),
    {
        proof {
            self.lemma_eof_is_last(self.pos as int);
        }
        self.bump();
    }

    /// The region of the token at `index`.
    pub fn span_of(&self, index: usize) -> (span: Span)
        requires
            self.wf(),
            index < self.tokens().len(),
        ensures
            span@ == self.src().span_at(index as int),
    {
        proof {
            self.lemma_eof_is_last(index as int);
        }
        let t = &self.toks[index];
        let start = locate(self.input.as_str(), t.start);
        let end = locate(self.input.as_str(), t.end);
        Span { file_name: self.file_name.clone(), start, end }
    }

    /// The error of the given kind at the token of the given index.
    pub fn error_at(&self, kind: ErrorKind, index: usize) -> (e: Error)
        requires
            self.wf(),
            index < self.tokens().len(),
        ensures
            e@ == self.src().failure(kind@, index as int),
    {
        Error { kind, span: self.span_of(index) }
    }

    /// The value of the string literal at `index`, or the error, reported at
    /// the token at `blame`.
    pub fn str_value(&self, index: usize, blame: usize) -> (r: Result<String, Error>)
        requires
            self.wf(),
            index < self.tokens().len(),
            blame < self.tokens().len(),
        ensures
            match self.src().value_at(index as int, blame as int) {
                Ok(v) => r matches Ok(s) && s@ == v,
                Err(e) => r matches Err(x) && x@ == e,
            },
    {
        let text = chars_of(self.toks[index].text.as_str());
        if is_decodable(&text) {
            match decode_str_lit(self.toks[index].text.as_str()) {
                Ok(v) => Ok(v),
                Err(e) => Err(self.error_at(ErrorKind::ParseStrLitError(e), blame)),
            }
        } else {
            Err(self.error_at(ErrorKind::UnsupportedStrLit, blame))
        }
    }

    /// The error that says what was expected in place of the current token.
    pub fn expected(&self, what: &'static str) -> (e: Error)
        requires
            self.wf(),
        ensures
            e@ == self.src().expected(what@, self.pos as int),
    {
        proof {
            self.lemma_eof_is_last(self.pos as int);
        }
        self.error_at(ErrorKind::Expected(what), self.pos)
    }
}

/// Whether a token is the identifier `word`.
pub open spec fn is_id(t: TokView, word: Seq<char>) -> bool {
    t.tt == Tt::Id && t.text == word
}

/// Whether a token is a string literal.
pub open spec fn is_str_lit(t: TokView) -> bool {
    t.tt == Tt::StrLitSgl || t.tt == Tt::StrLitDbl
}

/// What an analyzer reads: a named input and its tokens. Moving through the
/// tokens leaves it unchanged.
pub struct Src {
    pub file_name: Seq<char>,
    pub input: Seq<char>,
    pub toks: Seq<TokView>,
}

impl Src {
    /// The region of the token at `index`, with line and column numbers.
    pub open spec fn span_at(self, index: int) -> SpanView {
        SpanView {
            file_name: self.file_name,
            start: located(self.input, self.toks[index].start),
            end: located(self.input, self.toks[index].end),
        }
    }

    /// The error of the given kind at the token of the given index.
    pub open spec fn failure(self, kind: ErrorKindView, index: int) -> ErrorView {
        ErrorView { kind, span: self.span_at(index) }
    }

    /// The error that says what was expected in place of the token at
    /// `index`.
    pub open spec fn expected(self, what: Seq<char>, index: int) -> ErrorView {
        self.failure(ErrorKindView::Expected(what), index)
    }

    /// The value of the string literal at `index`. An error is reported at
    /// the token at `blame`.
    pub open spec fn value_at(self, index: int, blame: int) -> Result<Seq<char>, ErrorView> {
        let text = self.toks[index].text;
        if decodable(text) {
            match str_lit(text) {
                Ok(v) => Ok(v),
                Err(e) => Err(self.failure(ErrorKindView::ParseStrLitError(e), blame)),
            }
        } else {
            Err(self.failure(ErrorKindView::UnsupportedStrLit, blame))
        }
    }
}

/// How many tokens are left at `pos`.
pub open spec fn left(src: Src, pos: int) -> nat {
    if pos < src.toks.len() {
        (src.toks.len() - pos) as nat
    } else {
        0
    }
}

/// A place in the token sequence, and the output written so far.
pub struct Cursor {
    pub pos: int,
    pub out: Seq<char>,
}

impl Cursor {
    /// After a token was dropped: its leading whitespace is kept.
    #[verifier::inline]
    pub open spec fn eat(self, src: Src) -> Cursor {
        Cursor { pos: self.pos + 1, out: self.out + src.toks[self.pos].ws_before }
    }

    /// After a token was copied, with its leading whitespace.
    #[verifier::inline]
    pub open spec fn eat_whole(self, src: Src) -> Cursor {
        Cursor {
            pos: self.pos + 1,
            out: self.out + src.toks[self.pos].ws_before + src.toks[self.pos].text,
        }
    }

    /// After a token was passed over without writing.
    #[verifier::inline]
    pub open spec fn skip(self) -> Cursor {
        Cursor { pos: self.pos + 1, out: self.out }
    }

    /// After `text` was written.
    #[verifier::inline]
    pub open spec fn write(self, text: Seq<char>) -> Cursor {
        Cursor { pos: self.pos, out: self.out + text }
    }
}

/// Whether the string-literal decoder can be given `text`.
pub fn is_decodable(text: &Vec<char>) -> (r: bool)
    ensures
        r == decodable(text@),
{
    let n = text.len();
    if n < 2 {
        return false;
    }
    if text[0] as u32 >= 128 || text[n - 1] as u32 >= 128 {
        return false;
    }
    let mut seen = false;
    let mut ascii = true;
    let ghost mut first: int = 0;
    let ghost mut wide: int = 0;
    let mut i: usize = 0;
    while i < n
        invariant
            n == text@.len(),
            i <= n,
            ascii ==> forall|k: int| 0 <= k < i ==> (#[trigger] text@[k] as u32) < 128,
            !ascii ==> 0 <= wide < i && (text@[wide] as u32) >= 128,
            seen ==> 0 <= first < i && text@[first] == '\\',
            !seen ==> forall|k: int| 0 <= k < i ==> text@[k] != '\\',
            forall|a: int, b: int| 0 <= a < b < i ==> !(text@[a] == '\\' && text@[b] == '\\'),
            forall|k: int|
                0 <= k < i && k + 2 < n ==> !(#[trigger] text@[k] == '\\' && text@[k + 1] == 'u'
                    && text@[k + 2] == '{'),
        decreases n - i,
    {
        let c = text[i];
        if c as u32 >= 128 {
            ascii = false;
            proof {
                wide = i as int;
            }
        }
        if c == '\\' {
            if seen {
                assert(text@[first] == '\\' && text@[i as int] == '\\');
                return false;
            }
            if n - i > 2 && text[i + 1] == 'u' && text[i + 2] == '{' {
                return false;
            }
            seen = true;
            proof {
                first = i as int;
            }
        }
        i += 1;
    }
    proof {
        if seen {
            assert(text@.contains('\\'));
        } else {
            assert(!text@.contains('\\'));
        }
        if !ascii {
            assert(!all_ascii(text@));
        }
    }
    !seen || ascii
}

/// The text of the tokens from `from` up to, not including, `to`, as it
/// stands in the input: the first token without its leading whitespace, the
/// others with theirs.
pub open spec fn tokens_text(src: Src, from: int, to: int) -> Seq<char>
    decreases to - from,
{
    if to <= from {
        Seq::empty()
    } else if to == from + 1 {
        src.toks[from].text
    } else {
        tokens_text(src, from, to - 1) + src.toks[to - 1].ws_before + src.toks[to - 1].text
    }
}

/// The first token at or after `from` that begins at or after the byte
/// offset `at`; the last token if there is none.
pub open spec fn seek(src: Src, from: int, at: nat) -> int
    decreases left(src, from),
{
    if from + 1 >= src.toks.len() || src.toks[from].start >= at {
        from
    } else {
        seek(src, from + 1, at)
    }
}

/// Seeking never goes back.
pub proof fn lemma_seek_from(src: Src, from: int, at: nat)
    ensures
        seek(src, from, at) >= from,
    decreases left(src, from),
{
    if from + 1 >= src.toks.len() || src.toks[from].start >= at {
    } else {
        lemma_seek_from(src, from + 1, at);
    }
}

/// What skipping an expression at the token `pos` comes to: the position
/// afterwards, or the error.
pub open spec fn skip_to(src: Src, pos: int) -> Result<int, ErrorView> {
    let s = skipped(src.input, pos as nat);
    match s.missing {
        Some(m) => Err(
            ErrorView {
                kind: ErrorKindView::Expected(m.expected),
                span: SpanView { file_name: src.file_name, start: m.start, end: m.end },
            },
        ),
        None => Ok(seek(src, pos, s.at)),
    }
}

impl Lexer {
    /// Appends the text of the tokens from `from` up to the current one.
    pub fn push_text(&self, from: usize, out: &mut String)
        requires
            self.wf(),
            from <= self.pos,
        ensures
            final(out)@ == old(out)@ + tokens_text(self.src(), from as int, self.pos as int),
    {
        if from == self.pos {
            assert(old(out)@ + tokens_text(self.src(), from as int, self.pos as int) =~= old(out)@);
            return ;
        }
        out.append(self.toks[from].text.as_str());
        let mut k: usize = from + 1;
        while k < self.pos
            invariant
                self.wf(),
                from < k <= self.pos,
                out@ == old(out)@ + tokens_text(self.src(), from as int, k as int),
            decreases self.pos - k,
        {
            out.append(self.toks[k].ws_before.as_str());
            out.append(self.toks[k].text.as_str());
            k += 1;
            assert(out@ =~= old(out)@ + tokens_text(self.src(), from as int, k as int));
        }
    }

    /// Skips one assignment expression that begins at the current token.
    pub fn skip_expr(&mut self) -> (r: Result<(), Error>)
        requires
            old(self).wf(),
        ensures
            final(self).wf(),
            final(self).src() == old(self).src(),
            final(self).pos >= old(self).pos,
            match skip_to(old(self).src(), old(self).pos as int) {
                Ok(p) => r.is_ok() && final(self).pos == p,
                Err(e) => r matches Err(x) && x@ == e,
            },
    {
        let s = skip_expr(self.input.as_str(), self.pos);
        match s.missing {
            Some(m) => Err(
                Error {
                    kind: ErrorKind::Expected(m.expected),
                    span: Span { file_name: self.file_name.clone(), start: m.start, end: m.end },
                },
            ),
            None => {
                let ghost src = self.src();
                let ghost from = self.pos as int;
                proof {
                    self.lemma_eof_is_last(self.pos as int);
                }
                while self.pos < self.toks.len() - 1 && self.toks[self.pos].start < s.at
                    invariant
                        self.wf(),
                        self.src() == src,
                        src == old(self).src(),
                        from == old(self).pos,
                        from <= self.pos,
                        seek(src, self.pos as int, s.at as nat) == seek(src, from, s.at as nat),
                    decreases self.toks@.len() - self.pos,
                {
                    proof {
                        self.lemma_eof_is_last(self.pos as int);
                    }
                    self.pos = self.pos + 1;
                }
                proof {
                    self.lemma_eof_is_last(self.pos as int);
                }
                Ok(())
            },
        }
    }
}

/// Whether one of the first `k` tokens is the error token.
pub open spec fn failed_upto(toks: Seq<TokView>, k: nat) -> bool
    decreases k,
{
    k > 0 && (failed_upto(toks, (k - 1) as nat) || toks[k - 1].tt == Tt::Error)
}

/// The first character from index `i` on that lexical analysis cannot be
/// given, if there is one.
pub open spec fn first_unlexable(input: Seq<char>, i: nat) -> Option<char>
    decreases input.len() - i,
{
    if i >= input.len() {
        None
    } else if !lexable_char(input[i as int]) {
        Some(input[i as int])
    } else {
        first_unlexable(input, i + 1)
    }
}

/// The first character of `input` that lexical analysis cannot be given.
pub fn find_unlexable(input: &Vec<char>) -> (r: Option<char>)
    ensures
        r == first_unlexable(input@, 0),
        r.is_none() == lexable(input@),
{
    let mut i: usize = 0;
    while i < input.len()
        invariant
            i <= input@.len(),
            first_unlexable(input@, i as nat) == first_unlexable(input@, 0),
            forall|k: int| 0 <= k < i ==> lexable_char(#[trigger] input@[k]),
        decreases input@.len() - i,
    {
        let c = input[i] as u32;
        if (0x40000 <= c && c < 0x80000) || (0xC0000 <= c && c < 0x100000) {
            return Some(input[i]);
        }
        i += 1;
    }
    None
}

impl Lexer {
    /// The lexical error, if analysis has met one by the current token.
    pub open spec fn failure(&self) -> Option<LexErrorView> {
        if failed_upto(self.tokens(), (self.pos + 1) as nat) {
            match lex_failure(self.input@) {
                Some((kind, start, end)) => Some(
                    LexErrorView { kind, span: SpanView { file_name: self.file_name@, start, end } },
                ),
                None => None,
            }
        } else {
            None
        }
    }

    /// The lexical error, if analysis has met one by the current token.
    pub fn error(&self) -> (r: Option<LexError>)
        requires
            self.wf(),
        ensures
            match self.failure() {
                Some(e) => r matches Some(x) && x@ == e,
                None => r is None,
            },
    {
        let mut k: usize = 0;
        let mut failed = false;
        assert(self.pos < self.toks.len());
        let end = self.pos + 1;
        while k < end
            invariant
                self.wf(),
                end == self.pos + 1,
                k <= end,
                failed == failed_upto(self.tokens(), k as nat),
            decreases end - k,
        {
            assert(self.tokens()[k as int] == self.toks@[k as int]@);
            if self.toks[k].tt == Tt::Error {
                failed = true;
            }
            k += 1;
        }
        if !failed {
            return None;
        }
        match lex_error(self.input.as_str()) {
            Some((kind, p, r, c, q, s, d)) => Some(
                LexError {
                    kind,
                    span: Span {
                        file_name: self.file_name.clone(),
                        start: Loc { pos: p, row: r, col: c },
                        end: Loc { pos: q, row: s, col: d },
                    },
                },
            ),
            None => None,
        }
    }
}

} // verus!
