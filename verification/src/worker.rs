//! The work of a build: resolving a specifier, and reading a module to find
//! what it depends on.

use vstd::prelude::*;
use crate::es6::error::{Error, ErrorView, LexError, LexErrorKind, LexErrorView, Loc, Span, SpanView};
use crate::es6::lexer::{
    find_unlexable,
    first_unlexable,
    is_id,
    is_str_lit,
    left,
    lexable,
    lexed,
    refined,
    Lexer,
    Src,
    Tt,
};
use crate::es6::{cjs, insert, insert_dep, module_to_cjs, CjsModuleView};
use crate::modules::{ModuleInfo, ModuleInfoView, Source, SourceView};
use crate::path_ext::{extension, path_extension};
use crate::resolver::Resolved;
use crate::text::{chars_of, push_range, starts_with, str_eq};
use crate::{CliError, CliErrorView};

verus! {

/// A piece of work.
#[derive(Debug)]
pub enum Work {
    /// Resolve the specifier `name` that stands in the file `context`.
    Resolve { context: String, name: String },
    /// Read the module of the file `module`.
    Include { module: String },
}

/// A piece of work that was done.
#[derive(Debug)]
pub enum WorkDone {
    Resolve { context: String, name: String, resolved: Resolved },
    Include { module: String, info: ModuleInfo },
}

/// The modules that the tokens from `pos` on ask for with `require`, after
/// those in `deps`: `require` followed by a string literal in parentheses
/// asks for the module that the literal names.
pub open spec fn harvest(src: Src, pos: int, deps: Seq<Seq<char>>) -> Result<
    Seq<Seq<char>>,
    ErrorView,
>
    decreases left(src, pos),
{
    let t = src.toks[pos];
    if pos < 0 || pos >= src.toks.len() || t.tt == Tt::Eof {
        Ok(deps)
    } else if is_id(t, "require"@) {
        if src.toks[pos + 1].tt != Tt::Lparen {
            harvest(src, pos + 1, deps)
        } else if !is_str_lit(src.toks[pos + 2]) {
            harvest(src, pos + 2, deps)
        } else if src.toks[pos + 3].tt != Tt::Rparen {
            harvest(src, pos + 3, deps)
        } else {
            match src.value_at(pos + 2, pos + 2) {
                Ok(dep) => harvest(src, pos + 4, insert(deps, dep)),
                Err(e) => Err(e),
            }
        }
    } else {
        harvest(src, pos + 1, deps)
    }
}

/// What is asked for with `require` is listed once each.
pub proof fn lemma_harvest_once(src: Src, pos: int, deps: Seq<Seq<char>>)
    requires
        deps.no_duplicates(),
    ensures
        harvest(src, pos, deps) matches Ok(all) ==> all.no_duplicates(),
    decreases left(src, pos),
{
    let t = src.toks[pos];
    if pos < 0 || pos >= src.toks.len() || t.tt == Tt::Eof {
    } else if is_id(t, "require"@) {
        if src.toks[pos + 1].tt != Tt::Lparen {
            lemma_harvest_once(src, pos + 1, deps);
        } else if !is_str_lit(src.toks[pos + 2]) {
            lemma_harvest_once(src, pos + 2, deps);
        } else if src.toks[pos + 3].tt != Tt::Rparen {
            lemma_harvest_once(src, pos + 3, deps);
        } else {
            match src.value_at(pos + 2, pos + 2) {
                Ok(dep) => {
                    crate::es6::once::lemma_insert_once(deps, dep);
                    lemma_harvest_once(src, pos + 4, crate::es6::insert(deps, dep));
                },
                Err(_) => {},
            }
        }
    } else {
        lemma_harvest_once(src, pos + 1, deps);
    }
}

/// The modules that the rest of the input asks for with `require`.
pub fn cjs_parse_deps(lex: &mut Lexer) -> (r: Result<Vec<String>, Error>)
    requires
        old(lex).wf(),
    ensures
        final(lex).wf(),
        final(lex).src() == old(lex).src(),
        match harvest(old(lex).src(), old(lex).pos as int, Seq::empty()) {
            Ok(deps) => r matches Ok(v) && v.deep_view() == deps && final(lex).pos + 1
                == final(lex).tokens().len(),
            Err(e) => r matches Err(x) && x@ == e,
        },
{
    let mut deps: Vec<String> = Vec::new();
    let ghost src = lex.src();
    let ghost start = lex.pos as int;
    assert(deps.deep_view() =~= Seq::<Seq<char>>::empty());
    loop
        invariant
            lex.wf(),
            lex.src() == src,
            src == old(lex).src(),
            start == old(lex).pos,
            harvest(src, lex.pos as int, deps.deep_view()) == harvest(src, start, Seq::empty()),
        decreases lex.toks@.len() - lex.pos,
    {
        proof {
            lex.lemma_eof_is_last(lex.pos as int);
        }
        match lex.tt() {
            Tt::Eof => {
                return Ok(deps);
            },
            _ => {
                if lex.at_word("require") {
                    lex.skip();
                    match lex.tt() {
                        Tt::Lparen => {
                            lex.skip();
                            match lex.tt() {
                                Tt::StrLitSgl | Tt::StrLitDbl => {
                                    let lit = lex.pos;
                                    lex.skip();
                                    match lex.tt() {
                                        Tt::Rparen => {
                                            lex.skip();
                                            match lex.str_value(lit, lit) {
                                                Ok(dep) => {
                                                    insert_dep(&mut deps, dep);
                                                },
                                                Err(e) => {
                                                    return Err(e);
                                                },
                                            }
                                        },
                                        _ => {},
                                    }
                                },
                                _ => {},
                            }
                        },
                        _ => {},
                    }
                } else {
                    lex.skip();
                }
            },
        }
    }
}

/// How a file is read, by its extension.
pub enum Reading {
    /// As data: a `.json` file.
    Json,
    /// As an ECMAScript module: an `.mjs` file.
    Module,
    /// As a script that may hold ECMAScript module syntax.
    Mixed,
    /// As a script.
    Script,
}

/// How the file `path` is read.
pub open spec fn reading_of(path: Seq<char>, everywhere: bool) -> Reading {
    if extension(path) == Some("mjs"@) {
        Reading::Module
    } else if extension(path) == Some("json"@) {
        Reading::Json
    } else if everywhere {
        Reading::Mixed
    } else {
        Reading::Script
    }
}

/// A text with `//` in the place of `#!` at its start.
pub open spec fn without_hashbang(s: Seq<char>) -> Seq<char> {
    if starts_with(s, "#!"@) {
        "//"@ + s.subrange(2, s.len() as int)
    } else {
        s
    }
}

/// The text of a module: `body` where it is given, with the text as read
/// kept; else the text as read. A hashbang at the start of the body is made
/// a comment, which makes a body of the text as read too.
pub open spec fn source_of(
    prefix: Seq<char>,
    body: Option<Seq<char>>,
    suffix: Seq<char>,
    source: Seq<char>,
) -> SourceView {
    let text = match body {
        Some(b) => b,
        None => source,
    };
    if body.is_some() || starts_with(text, "#!"@) {
        SourceView { prefix, body: without_hashbang(text), suffix, original: Some(source) }
    } else {
        SourceView { prefix, body: source, suffix, original: None }
    }
}

/// The error for an input that lexical analysis cannot be given: the
/// character that is in the way, at no place in particular.
pub open spec fn unlexable(path: Seq<char>, c: char) -> CliErrorView {
    CliErrorView::Lex(
        LexErrorView {
            kind: LexErrorKind::Unexpected(c),
            span: SpanView {
                file_name: path,
                start: Loc { pos: 0, row: 0, col: 0 },
                end: Loc { pos: 0, row: 0, col: 0 },
            },
        },
    )
}

/// What is known of an input once it was cut into tokens.
pub open spec fn src_of(path: Seq<char>, source: Seq<char>) -> Src {
    Src { file_name: path, input: source, toks: refined(lexed(source)) }
}

/// The lexical error of an input of which the first `k` tokens were read.
pub open spec fn failure_upto(path: Seq<char>, source: Seq<char>, k: nat) -> Option<LexErrorView> {
    if crate::es6::lexer::failed_upto(refined(lexed(source)), k) {
        match crate::es6::lexer::lex_failure(source) {
            Some((kind, start, end)) => Some(
                LexErrorView { kind, span: SpanView { file_name: path, start, end } },
            ),
            None => None,
        }
    } else {
        None
    }
}

/// An error of a script: that of a string literal that has no value, as it
/// is; any other with the place that it points at.
pub open spec fn script_error(e: ErrorView) -> CliErrorView {
    match e.kind {
        crate::es6::error::ErrorKindView::ParseStrLitError(x) => CliErrorView::ParseStrLit(x),
        _ => CliErrorView::Es6(e),
    }
}

/// What reading the module of the file `path` with the text `source`
/// gives. A `.json` file is data: it depends on nothing, and
/// `module.exports =` is put before it. An `.mjs` file is rewritten as an
/// ECMAScript module. Any other file is a script whose calls of `require`
/// are its dependencies; with `everywhere` set it is rewritten where it
/// holds import or export declarations. A hashbang at the start of the
/// text is made a comment before the text is analyzed. An error of the
/// rewriter comes before one of lexical analysis.
pub open spec fn included(path: Seq<char>, source: Seq<char>, everywhere: bool) -> Result<
    ModuleInfoView,
    CliErrorView,
> {
    let text = without_hashbang(source);
    let src = src_of(path, text);
    let n = src.toks.len();
    let start = crate::es6::lexer::Cursor { pos: 0, out: Seq::empty() };
    match first_unlexable(text, 0) {
        Some(c) => Err(unlexable(path, c)),
        None => match reading_of(path, everywhere) {
            Reading::Json => match failure_upto(path, text, 1) {
                Some(e) => Err(CliErrorView::Lex(e)),
                None => Ok(
                    ModuleInfoView {
                        source: source_of("module.exports ="@, None, Seq::empty(), source),
                        deps: Seq::empty(),
                    },
                ),
            },
            Reading::Script => match harvest(src, 0, Seq::empty()) {
                Err(e) => Err(script_error(e)),
                Ok(deps) => match failure_upto(path, text, n) {
                    Some(e) => Err(CliErrorView::Lex(e)),
                    None => Ok(
                        ModuleInfoView {
                            source: source_of(Seq::empty(), None, Seq::empty(), source),
                            deps,
                        },
                    ),
                },
            },
            reading => match cjs(src, reading is Mixed, start) {
                Err(e) => Err(CliErrorView::Es6(e)),
                Ok(m) => match failure_upto(path, text, n) {
                    Some(e) => Err(CliErrorView::Lex(e)),
                    None => Ok(
                        ModuleInfoView {
                            source: source_of(
                                m.source_prefix,
                                Some(m.source),
                                m.source_suffix,
                                source,
                            ),
                            deps: m.deps,
                        },
                    ),
                },
            },
        },
    }
}

fn make_source(prefix: String, body: Option<String>, suffix: String, source: String) -> (s: Source)
    ensures
        s@ == source_of(
            prefix@,
            match body {
                Some(b) => Some(b@),
                None => None,
            },
            suffix@,
            source@,
        ),
{
    let hashbang = chars_of("#!");
    proof {
        reveal_strlit("#!");
        reveal_strlit("//");
    }
    let text = match &body {
        Some(b) => chars_of(b.as_str()),
        None => chars_of(source.as_str()),
    };
    if crate::text::has_at(&text, 0, &hashbang) {
        let mut fixed = String::new();
        fixed.append("//");
        push_range(&mut fixed, &text, 2, text.len());
        assert(text@.subrange(0, text@.len() as int) =~= text@);
        Source { prefix, body: fixed, suffix, original: Some(source) }
    } else {
        assert(text@.subrange(0, text@.len() as int) =~= text@);
        match body {
            Some(b) => Source { prefix, body: b, suffix, original: Some(source) },
            None => Source { prefix, body: source, suffix, original: None },
        }
    }
}

/// The text with `//` in the place of `#!` at its start.
pub fn comment_hashbang(source: &str) -> (text: String)
    ensures
        text@ == without_hashbang(source@),
{
    let hashbang = chars_of("#!");
    proof {
        reveal_strlit("#!");
        reveal_strlit("//");
    }
    let chars = chars_of(source);
    assert(chars@.subrange(0, chars@.len() as int) =~= chars@);
    if crate::text::has_at(&chars, 0, &hashbang) {
        let mut fixed = String::new();
        fixed.append("//");
        push_range(&mut fixed, &chars, 2, chars.len());
        fixed
    } else {
        source.to_owned()
    }
}

fn lex_check(lex: &Lexer) -> (r: Result<(), CliError>)
    requires
        lex.wf(),
    ensures
        match lex.failure() {
            Some(e) => r matches Err(x) && x@ == CliErrorView::Lex(e),
            None => r is Ok,
        },
{
    match lex.error() {
        Some(e) => Err(CliError::Lex(e)),
        None => Ok(()),
    }
}

/// What is wrong with bytes that are no text in UTF-8, in the words of the
/// standard library.
pub uninterp spec fn utf8_fault(bytes: Seq<u8>) -> Seq<char>;

/// The text that the bytes are in UTF-8, or what is wrong with them.
///
/// Trusted: this is `String::from_utf8`, with its error as the text that
/// the error shows itself as. It gives the text where the bytes are valid
/// UTF-8 and an error where they are not; the words of the error are a
/// function of the bytes alone.
#[verifier::external_body]
fn decode_text(bytes: Vec<u8>) -> (r: Result<String, String>)
    ensures
        match r {
            Ok(text) => vstd::utf8::valid_utf8(bytes@) && text@ == vstd::utf8::decode_utf8(bytes@),
            Err(e) => !vstd::utf8::valid_utf8(bytes@) && e@ == utf8_fault(bytes@),
        },
{
    match String::from_utf8(bytes) {
        Ok(text) => Ok(text),
        Err(e) => Err(e.to_string()),
    }
}

/// The text of the file `module` whose bytes are `bytes`: the text that
/// they are in UTF-8, or the error that says that they are none.
pub fn module_text(module: &str, bytes: Vec<u8>) -> (r: Result<String, CliError>)
    ensures
        match r {
            Ok(text) => vstd::utf8::valid_utf8(bytes@) && text@ == vstd::utf8::decode_utf8(bytes@),
            Err(e) => !vstd::utf8::valid_utf8(bytes@) && e@ == (CliErrorView::InvalidUtf8 {
                context: module@,
                err: utf8_fault(bytes@),
            }),
        },
{
    match decode_text(bytes) {
        Ok(text) => Ok(text),
        Err(err) => Err(CliError::InvalidUtf8 { context: module.to_owned(), err }),
    }
}

/// A module that was read lists every module that it depends on once.
pub proof fn lemma_included_once(path: Seq<char>, source: Seq<char>, everywhere: bool)
    ensures
        included(path, source, everywhere) matches Ok(info) ==> info.deps.no_duplicates(),
{
    let src = src_of(path, without_hashbang(source));
    let start = crate::es6::lexer::Cursor { pos: 0, out: Seq::empty() };
    lemma_harvest_once(src, 0, Seq::empty());
    crate::es6::once::lemma_cjs_once(src, true, start);
    crate::es6::once::lemma_cjs_once(src, false, start);
}

/// Reads the module of the file `module`, whose text is `source`: finds
/// what it depends on, and rewrites it where it is an ECMAScript module.
/// With `everywhere` set every file may be one, not those named `.mjs`
/// alone.
pub fn include_module(module: &str, source: String, everywhere: bool) -> (r: Result<
    ModuleInfo,
    CliError,
>)
    ensures
        match included(module@, source@, everywhere) {
            Ok(info) => r matches Ok(v) && v@ == info,
            Err(e) => r matches Err(x) && x@ == e,
        },
        r matches Ok(v) ==> v@.deps.no_duplicates(),
{
    proof {
        lemma_included_once(module@, source@, everywhere);
    }
    let text = comment_hashbang(source.as_str());
    let chars = chars_of(text.as_str());
    match find_unlexable(&chars) {
        Some(c) => {
            return Err(
                CliError::Lex(
                    LexError {
                        kind: LexErrorKind::Unexpected(c),
                        span: Span {
                            file_name: module.to_owned(),
                            start: Loc { pos: 0, row: 0, col: 0 },
                            end: Loc { pos: 0, row: 0, col: 0 },
                        },
                    },
                ),
            );
        },
        None => {},
    }
    let mut lexer = Lexer::new(module, text.as_str());
    assert(lexer.src() == src_of(module@, text@));
    let ext = path_extension(module);
    let is_mjs = match &ext {
        Some(e) => str_eq(e.as_str(), "mjs"),
        None => false,
    };
    let is_json = match &ext {
        Some(e) => str_eq(e.as_str(), "json"),
        None => false,
    };
    if is_json && !is_mjs {
        match lex_check(&lexer) {
            Err(e) => {
                return Err(e);
            },
            Ok(()) => {},
        }
        let deps: Vec<String> = Vec::new();
        assert(deps.deep_view() =~= Seq::<Seq<char>>::empty());
        let s = make_source("module.exports =".to_owned(), None, String::new(), source);
        Ok(ModuleInfo { source: s, deps })
    } else if is_mjs || everywhere {
        let m = match module_to_cjs(&mut lexer, !is_mjs) {
            Ok(m) => m,
            Err(e) => {
                return Err(CliError::Es6(e));
            },
        };
        match lex_check(&lexer) {
            Err(e) => {
                return Err(e);
            },
            Ok(()) => {},
        }
        let s = make_source(m.source_prefix, Some(m.source), m.source_suffix, source);
        Ok(ModuleInfo { source: s, deps: m.deps })
    } else {
        let deps = match cjs_parse_deps(&mut lexer) {
            Ok(d) => d,
            Err(e) => {
                return match e.kind {
                    crate::es6::error::ErrorKind::ParseStrLitError(x) => Err(
                        CliError::ParseStrLit(x),
                    ),
                    _ => Err(CliError::Es6(e)),
                };
            },
        };
        match lex_check(&lexer) {
            Err(e) => {
                return Err(e);
            },
            Ok(()) => {},
        }
        let s = make_source(String::new(), None, String::new(), source);
        Ok(ModuleInfo { source: s, deps })
    }
}

} // verus!
