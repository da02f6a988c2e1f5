//! Export declarations: what they export, and how they are read off the
//! token stream.

use vstd::prelude::*;
use crate::es6::error::{Error, ErrorView};
use crate::es6::lexer::{
    is_id,
    is_str_lit,
    left,
    skip_to,
    tokens_text,
    Cursor,
    Lexer,
    Src,
    Tt,
};

verus! {

/// One name of an export list: the local binding `bind`, exported as `name`.
#[derive(Debug, PartialEq, Eq, Hash)]
pub struct ExportSpec {
    pub bind: String,
    pub name: String,
}

pub struct ExportSpecView {
    pub bind: Seq<char>,
    pub name: Seq<char>,
}

impl View for ExportSpec {
    type V = ExportSpecView;

    open spec fn view(&self) -> ExportSpecView {
        ExportSpecView { bind: self.bind@, name: self.name@ }
    }
}

impl DeepView for ExportSpec {
    type V = ExportSpecView;

    open spec fn deep_view(&self) -> ExportSpecView {
        self@
    }
}

impl ExportSpec {
    /// The specifier that exports `bind` as `name`.
    pub fn new(bind: &str, name: &str) -> (s: Self)
        ensures
            s@ == (ExportSpecView { bind: bind@, name: name@ }),
    {
        ExportSpec { bind: bind.to_owned(), name: name.to_owned() }
    }

    /// The specifier that exports `name` under its own name.
    pub fn same(name: &str) -> (s: Self)
        ensures
            s@ == (ExportSpecView { bind: name@, name: name@ }),
    {
        ExportSpec::new(name, name)
    }
}

/// An export declaration.
#[derive(Debug, PartialEq, Eq)]
pub enum Export {
    /// The default export, bound to the given local name.
    Default(String),
    /// Everything of another module: the specifier as written, and its value.
    AllFrom(String, String),
    /// Local bindings.
    Named(Vec<ExportSpec>),
    /// Names of another module: the specifier as written, and its value.
    NamedFrom(Vec<ExportSpec>, String, String),
}

pub enum ExportView {
    Default(Seq<char>),
    AllFrom(Seq<char>, Seq<char>),
    Named(Seq<ExportSpecView>),
    NamedFrom(Seq<ExportSpecView>, Seq<char>, Seq<char>),
}

impl View for Export {
    type V = ExportView;

    open spec fn view(&self) -> ExportView {
        match self {
            Export::Default(s) => ExportView::Default(s@),
            Export::AllFrom(s, m) => ExportView::AllFrom(s@, m@),
            Export::Named(v) => ExportView::Named(v.deep_view()),
            Export::NamedFrom(v, s, m) => ExportView::NamedFrom(v.deep_view(), s@, m@),
        }
    }
}

impl DeepView for Export {
    type V = ExportView;

    open spec fn deep_view(&self) -> ExportView {
        self@
    }
}

/// A name exported under itself.
pub open spec fn same(name: Seq<char>) -> ExportSpecView {
    ExportSpecView { bind: name, name }
}

/// The rest of a braced export list, after the specifiers in `acc`: names,
/// each with an optional `as` and exported name, separated by commas, up to
/// the closing brace. Of the tokens only the whitespace is written.
pub open spec fn export_list(src: Src, c: Cursor, acc: Seq<ExportSpecView>) -> Result<
    (Seq<ExportSpecView>, Cursor),
    ErrorView,
>
    decreases left(src, c.pos),
{
    let t = src.toks[c.pos];
    if c.pos < 0 || c.pos >= src.toks.len() {
        Err(src.expected("binding name or '}'"@, c.pos))
    } else if t.tt == Tt::Id || t.tt == Tt::Default {
        let c1 = c.eat(src);
        let u = src.toks[c1.pos];
        if is_id(u, "as"@) {
            let c2 = c1.eat(src);
            let v = src.toks[c2.pos];
            if v.tt == Tt::Id || v.tt == Tt::Default {
                let c3 = c2.eat(src);
                let w = src.toks[c3.pos];
                let acc1 = acc.push(ExportSpecView { bind: t.text, name: v.text });
                if w.tt == Tt::Rbrace {
                    Ok((acc1, c3.eat(src)))
                } else if w.tt == Tt::Comma {
                    export_list(src, c3.eat(src), acc1)
                } else {
                    Err(src.expected("',' or '}'"@, c3.pos))
                }
            } else {
                Err(src.expected("export name after keyword 'as'"@, c2.pos))
            }
        } else if u.tt == Tt::Rbrace {
            Ok((acc.push(same(t.text)), c1.eat(src)))
        } else if u.tt == Tt::Comma {
            export_list(src, c1.eat(src), acc.push(same(t.text)))
        } else {
            Err(src.expected("',' or '}' or keyword 'as'"@, c1.pos))
        }
    } else if t.tt == Tt::Rbrace {
        Ok((acc, c.eat(src)))
    } else {
        Err(src.expected("binding name or '}'"@, c.pos))
    }
}

/// What follows an export list: `from` and a module specifier, or nothing.
pub open spec fn export_from(src: Src, c: Cursor, specs: Seq<ExportSpecView>) -> Result<
    (ExportView, Cursor),
    ErrorView,
> {
    if is_id(src.toks[c.pos], "from"@) {
        let c1 = c.eat(src);
        let u = src.toks[c1.pos];
        if is_str_lit(u) {
            match src.value_at(c1.pos, c1.pos) {
                Ok(module) => Ok((ExportView::NamedFrom(specs, u.text, module), c1.eat(src))),
                Err(e) => Err(e),
            }
        } else {
            Err(src.expected("module name (string literal)"@, c1.pos))
        }
    } else {
        Ok((ExportView::Named(specs), c))
    }
}

/// The rest of the declarators of an exported `var`, `let` or `const`, from
/// the token at `pos`, after the names in `acc`: a name, an optional
/// initializer that is skipped as an expression, and after a comma the next.
/// Gives the names and the position after the last declarator.
pub open spec fn export_bindings(src: Src, pos: int, acc: Seq<ExportSpecView>) -> Result<
    (Seq<ExportSpecView>, int),
    ErrorView,
>
    decreases left(src, pos),
{
    let t = src.toks[pos];
    if pos < 0 || pos >= src.toks.len() {
        Err(src.expected("binding name"@, pos))
    } else if t.tt == Tt::Id {
        let acc1 = acc.push(same(t.text));
        let u = src.toks[pos + 1];
        if u.tt == Tt::Eq {
            match skip_to(src, pos + 2) {
                Ok(p) => {
                    let q = if p >= pos + 2 {
                        p
                    } else {
                        pos + 2
                    };
                    if src.toks[q].tt == Tt::Comma {
                        export_bindings(src, q + 1, acc1)
                    } else {
                        Ok((acc1, q))
                    }
                },
                Err(e) => Err(e),
            }
        } else if u.tt == Tt::Comma {
            export_bindings(src, pos + 2, acc1)
        } else {
            Ok((acc1, pos + 1))
        }
    } else {
        Err(src.expected("binding name"@, pos))
    }
}

/// An exported function declaration after its keyword, which was dropped:
/// an optional `*` and the name. The declaration from the token at `start`
/// up to its name is written as it stands.
pub open spec fn named_function(src: Src, c: Cursor, start: int) -> Result<
    (ExportView, Cursor),
    ErrorView,
> {
    let p = if src.toks[c.pos].tt == Tt::Star {
        c.pos + 1
    } else {
        c.pos
    };
    if src.toks[p].tt == Tt::Id {
        Ok(
            (
                ExportView::Named(seq![same(src.toks[p].text)]),
                Cursor { pos: p + 1, out: c.out + tokens_text(src, start, p + 1) },
            ),
        )
    } else {
        Err(src.expected("function name"@, p))
    }
}

/// A default-exported function after its keyword, which was written: an
/// optional `*` and the name, both written.
pub open spec fn default_function(src: Src, c: Cursor) -> Result<(ExportView, Cursor), ErrorView> {
    let c1 = if src.toks[c.pos].tt == Tt::Star {
        c.eat_whole(src)
    } else {
        c
    };
    if src.toks[c1.pos].tt == Tt::Id {
        Ok((ExportView::Default(src.toks[c1.pos].text), c1.eat_whole(src)))
    } else {
        Err(src.expected("function name"@, c1.pos))
    }
}

/// What follows `export default`: a named class or function, which stays in
/// the output, or an expression, before which `const __default = ` is put.
pub open spec fn export_default(src: Src, c: Cursor) -> Result<(ExportView, Cursor), ErrorView> {
    let t = src.toks[c.pos];
    if t.tt == Tt::Class {
        let c1 = c.eat_whole(src);
        if src.toks[c1.pos].tt == Tt::Id {
            Ok((ExportView::Default(src.toks[c1.pos].text), c1.eat_whole(src)))
        } else {
            Err(src.expected("class name"@, c1.pos))
        }
    } else if t.tt == Tt::Function {
        default_function(src, c.eat_whole(src))
    } else if is_id(t, "async"@) {
        let h = src.toks[c.pos + 1];
        if !h.nl_before && h.tt == Tt::Function {
            default_function(src, c.eat_whole(src).eat_whole(src))
        } else {
            Ok(
                (
                    ExportView::Default("__default"@),
                    Cursor {
                        pos: c.pos + 1,
                        out: c.out + "const __default = "@ + t.ws_before + t.text,
                    },
                ),
            )
        }
    } else {
        Ok((ExportView::Default("__default"@), c.write("const __default = "@)))
    }
}

/// What follows the keyword `export`, beginning at the cursor:
/// `default` and a declaration or expression; `* from` a module; a braced
/// list, alone or `from` a module; or a declaration of variables, a
/// function or a class, which is written as it stands up to the last name
/// or initializer.
pub open spec fn export(src: Src, c: Cursor) -> Result<(ExportView, Cursor), ErrorView> {
    let t = src.toks[c.pos];
    let c1 = c.eat(src);
    if t.tt == Tt::Default {
        export_default(src, c1)
    } else if t.tt == Tt::Star {
        if is_id(src.toks[c1.pos], "from"@) {
            let c2 = c1.eat(src);
            let u = src.toks[c2.pos];
            if is_str_lit(u) {
                match src.value_at(c2.pos, c2.pos) {
                    Ok(module) => Ok((ExportView::AllFrom(u.text, module), c2.eat(src))),
                    Err(e) => Err(e),
                }
            } else {
                Err(src.expected("module name (string literal)"@, c2.pos))
            }
        } else {
            Err(src.expected("keyword 'from'"@, c1.pos))
        }
    } else if t.tt == Tt::Lbrace {
        match export_list(src, c1, Seq::empty()) {
            Ok((specs, c2)) => export_from(src, c2, specs),
            Err(e) => Err(e),
        }
    } else if t.tt == Tt::Var || t.tt == Tt::Const || is_id(t, "let"@) {
        match export_bindings(src, c1.pos, Seq::empty()) {
            Ok((specs, p)) => Ok(
                (ExportView::Named(specs), Cursor { pos: p, out: c1.out + tokens_text(src, c.pos, p) }),
            ),
            Err(e) => Err(e),
        }
    } else if t.tt == Tt::Function {
        named_function(src, c1, c.pos)
    } else if t.tt == Tt::Class {
        if src.toks[c1.pos].tt == Tt::Id {
            Ok(
                (
                    ExportView::Named(seq![same(src.toks[c1.pos].text)]),
                    Cursor { pos: c1.pos + 1, out: c1.out + tokens_text(src, c.pos, c1.pos + 1) },
                ),
            )
        } else {
            Err(src.expected("class name"@, c1.pos))
        }
    } else if is_id(t, "async"@) {
        let f = src.toks[c1.pos];
        if f.tt == Tt::Function {
            if f.nl_before {
                Err(
                    src.expected(
                        "no line terminator between 'function' and 'async'"@,
                        c1.pos + 1,
                    ),
                )
            } else {
                named_function(src, c1.skip(), c.pos)
            }
        } else {
            Err(src.expected("'function' following 'async'"@, c1.pos))
        }
    } else {
        Err(src.expected("keyword 'default' or '*' or '{' or declaration"@, c.pos))
    }
}

/// Whether a result of the executable reader is the outcome that the model
/// gives, with the analyzer and the output where the model leaves them.
pub open spec fn export_is(
    r: Result<Export, Error>,
    lex: Lexer,
    out: Seq<char>,
    model: Result<(ExportView, Cursor), ErrorView>,
) -> bool {
    match model {
        Ok((x, c)) => r matches Ok(v) && v@ == x && lex.cursor(out) == c,
        Err(e) => r matches Err(x) && x@ == e,
    }
}

fn parse_list(lex: &mut Lexer, source: &mut String) -> (r: Result<Vec<ExportSpec>, Error>)
    requires
        old(lex).wf(),
    ensures
        final(lex).wf(),
        final(lex).src() == old(lex).src(),
        final(lex).pos >= old(lex).pos,
        match export_list(old(lex).src(), old(lex).cursor(old(source)@), Seq::empty()) {
            Ok((specs, c)) => r matches Ok(v) && v.deep_view() == specs && final(lex).cursor(
                final(source)@,
            ) == c,
            Err(e) => r matches Err(x) && x@ == e,
        },
{
    let mut exports: Vec<ExportSpec> = Vec::new();
    let ghost src = lex.src();
    let ghost goal = export_list(src, lex.cursor(source@), Seq::empty());
    assert(exports.deep_view() =~= Seq::empty());
    loop
        invariant
            lex.wf(),
            lex.src() == src,
            src == old(lex).src(),
            lex.pos >= old(lex).pos,
            goal == export_list(old(lex).src(), old(lex).cursor(old(source)@), Seq::empty()),
            export_list(src, lex.cursor(source@), exports.deep_view()) == goal,
        decreases lex.toks@.len() - lex.pos,
    {
        let ghost acc = exports.deep_view();
        match lex.tt() {
            Tt::Id | Tt::Default => {
                let bind = lex.text();
                lex.eat(source);
                if lex.at_word("as") {
                    lex.eat(source);
                    match lex.tt() {
                        Tt::Id | Tt::Default => {
                            let name = lex.text();
                            lex.eat(source);
                            exports.push(ExportSpec { bind, name });
                            assert(exports.deep_view() =~= acc.push(
                                ExportSpecView { bind: bind@, name: name@ },
                            ));
                            match lex.tt() {
                                Tt::Rbrace => {
                                    lex.eat(source);
                                    return Ok(exports);
                                },
                                Tt::Comma => {
                                    lex.eat(source);
                                },
                                _ => {
                                    return Err(lex.expected("',' or '}'"));
                                },
                            }
                        },
                        _ => {
                            return Err(lex.expected("export name after keyword 'as'"));
                        },
                    }
                } else {
                    match lex.tt() {
                        Tt::Rbrace => {
                            lex.eat(source);
                            exports.push(ExportSpec { bind: bind.clone(), name: bind });
                            assert(exports.deep_view() =~= acc.push(same(bind@)));
                            return Ok(exports);
                        },
                        Tt::Comma => {
                            lex.eat(source);
                            exports.push(ExportSpec { bind: bind.clone(), name: bind });
                            assert(exports.deep_view() =~= acc.push(same(bind@)));
                        },
                        _ => {
                            return Err(lex.expected("',' or '}' or keyword 'as'"));
                        },
                    }
                }
            },
            Tt::Rbrace => {
                lex.eat(source);
                return Ok(exports);
            },
            _ => {
                return Err(lex.expected("binding name or '}'"));
            },
        }
    }
}

fn parse_from(lex: &mut Lexer, source: &mut String, specs: Vec<ExportSpec>) -> (r: Result<
    Export,
    Error,
>)
    requires
        old(lex).wf(),
    ensures
        final(lex).wf(),
        final(lex).src() == old(lex).src(),
        final(lex).pos >= old(lex).pos,
        export_is(
            r,
            *final(lex),
            final(source)@,
            export_from(old(lex).src(), old(lex).cursor(old(source)@), specs.deep_view()),
        ),
{
    if lex.at_word("from") {
        lex.eat(source);
        match lex.tt() {
            Tt::StrLitSgl | Tt::StrLitDbl => {
                let module_source = lex.text();
                let at = lex.pos;
                lex.eat(source);
                match lex.str_value(at, at) {
                    Ok(module) => Ok(Export::NamedFrom(specs, module_source, module)),
                    Err(e) => Err(e),
                }
            },
            _ => Err(lex.expected("module name (string literal)")),
        }
    } else {
        Ok(Export::Named(specs))
    }
}

fn parse_bindings(lex: &mut Lexer) -> (r: Result<Vec<ExportSpec>, Error>)
    requires
        old(lex).wf(),
    ensures
        final(lex).wf(),
        final(lex).src() == old(lex).src(),
        final(lex).pos >= old(lex).pos,
        match export_bindings(old(lex).src(), old(lex).pos as int, Seq::empty()) {
            Ok((specs, p)) => r matches Ok(v) && v.deep_view() == specs && final(lex).pos == p,
            Err(e) => r matches Err(x) && x@ == e,
        },
{
    let mut exports: Vec<ExportSpec> = Vec::new();
    let ghost src = lex.src();
    let ghost goal = export_bindings(src, lex.pos as int, Seq::empty());
    assert(exports.deep_view() =~= Seq::empty());
    loop
        invariant
            lex.wf(),
            lex.src() == src,
            src == old(lex).src(),
            lex.pos >= old(lex).pos,
            goal == export_bindings(old(lex).src(), old(lex).pos as int, Seq::empty()),
            export_bindings(src, lex.pos as int, exports.deep_view()) == goal,
        decreases lex.toks@.len() - lex.pos,
    {
        let ghost acc = exports.deep_view();
        let ghost pos = lex.pos as int;
        match lex.tt() {
            Tt::Id => {
                let name = lex.text();
                lex.skip();
                exports.push(ExportSpec { bind: name.clone(), name });
                assert(exports.deep_view() =~= acc.push(same(name@)));
                match lex.tt() {
                    Tt::Eq => {
                        lex.skip();
                        match lex.skip_expr() {
                            Ok(()) => {},
                            Err(e) => {
                                return Err(e);
                            },
                        }
                        proof {
                            crate::es6::lexer::lemma_seek_from(src, pos + 2, skipped_at(src, pos + 2));
                        }
                        match lex.tt() {
                            Tt::Comma => {
                                lex.skip();
                            },
                            _ => {
                                return Ok(exports);
                            },
                        }
                    },
                    Tt::Comma => {
                        lex.skip();
                    },
                    _ => {
                        return Ok(exports);
                    },
                }
            },
            _ => {
                return Err(lex.expected("binding name"));
            },
        }
    }
}

/// The byte offset at which skipping an expression at `pos` leaves off.
pub open spec fn skipped_at(src: Src, pos: int) -> nat {
    crate::es6::lexer::skipped(src.input, pos as nat).at
}

fn parse_named_function(lex: &mut Lexer, source: &mut String, start: usize) -> (r: Result<
    Export,
    Error,
>)
    requires
        old(lex).wf(),
        start < old(lex).pos,
    ensures
        final(lex).wf(),
        final(lex).src() == old(lex).src(),
        final(lex).pos >= old(lex).pos,
        export_is(
            r,
            *final(lex),
            final(source)@,
            named_function(old(lex).src(), old(lex).cursor(old(source)@), start as int),
        ),
{
    match lex.tt() {
        Tt::Star => {
            lex.skip();
        },
        _ => {},
    }
    match lex.tt() {
        Tt::Id => {
            let name = lex.text();
            lex.skip();
            lex.push_text(start, source);
            let mut specs: Vec<ExportSpec> = Vec::new();
            specs.push(ExportSpec { bind: name.clone(), name });
            assert(specs.deep_view() =~= seq![same(name@)]);
            Ok(Export::Named(specs))
        },
        _ => Err(lex.expected("function name")),
    }
}

fn parse_default_function(lex: &mut Lexer, source: &mut String) -> (r: Result<Export, Error>)
    requires
        old(lex).wf(),
    ensures
        final(lex).wf(),
        final(lex).src() == old(lex).src(),
        final(lex).pos >= old(lex).pos,
        export_is(
            r,
            *final(lex),
            final(source)@,
            default_function(old(lex).src(), old(lex).cursor(old(source)@)),
        ),
{
    match lex.tt() {
        Tt::Star => {
            lex.eat_whole(source);
        },
        _ => {},
    }
    match lex.tt() {
        Tt::Id => {
            let name = lex.text();
            lex.eat_whole(source);
            Ok(Export::Default(name))
        },
        _ => Err(lex.expected("function name")),
    }
}

fn parse_default(lex: &mut Lexer, source: &mut String) -> (r: Result<Export, Error>)
    requires
        old(lex).wf(),
    ensures
        final(lex).wf(),
        final(lex).src() == old(lex).src(),
        final(lex).pos >= old(lex).pos,
        export_is(
            r,
            *final(lex),
            final(source)@,
            export_default(old(lex).src(), old(lex).cursor(old(source)@)),
        ),
{
    match lex.tt() {
        Tt::Class => {
            lex.eat_whole(source);
            match lex.tt() {
                Tt::Id => {
                    let name = lex.text();
                    lex.eat_whole(source);
                    Ok(Export::Default(name))
                },
                _ => Err(lex.expected("class name")),
            }
        },
        Tt::Function => {
            lex.eat_whole(source);
            parse_default_function(lex, source)
        },
        _ => {
            if lex.at_word("async") {
                let at = lex.pos;
                lex.skip();
                let h = lex.here();
                if !h.nl_before && h.tt == Tt::Function {
                    source.append(lex.toks[at].ws_before.as_str());
                    source.append(lex.toks[at].text.as_str());
                    lex.eat_whole(source);
                    parse_default_function(lex, source)
                } else {
                    source.append("const __default = ");
                    source.append(lex.toks[at].ws_before.as_str());
                    source.append(lex.toks[at].text.as_str());
                    assert(source@ =~= old(source)@ + "const __default = "@ + lex.tokens()[at as int].ws_before
                        + lex.tokens()[at as int].text);
                    Ok(Export::Default("__default".to_owned()))
                }
            } else {
                source.append("const __default = ");
                Ok(Export::Default("__default".to_owned()))
            }
        },
    }
}

/// Reads what follows the keyword `export`, which the analyzer has just
/// passed, and appends to `source` what the declaration leaves in the
/// output.
pub fn parse_export(lex: &mut Lexer, source: &mut String) -> (r: Result<Export, Error>)
    requires
        old(lex).wf(),
    ensures
        final(lex).wf(),
        final(lex).src() == old(lex).src(),
        final(lex).pos >= old(lex).pos,
        export_is(
            r,
            *final(lex),
            final(source)@,
            export(old(lex).src(), old(lex).cursor(old(source)@)),
        ),
{
    let start = lex.pos;
    match lex.tt() {
        Tt::Default => {
            lex.eat(source);
            parse_default(lex, source)
        },
        Tt::Star => {
            lex.eat(source);
            if lex.at_word("from") {
                lex.eat(source);
                match lex.tt() {
                    Tt::StrLitSgl | Tt::StrLitDbl => {
                        let module_source = lex.text();
                        let at = lex.pos;
                        lex.eat(source);
                        match lex.str_value(at, at) {
                            Ok(module) => Ok(Export::AllFrom(module_source, module)),
                            Err(e) => Err(e),
                        }
                    },
                    _ => Err(lex.expected("module name (string literal)")),
                }
            } else {
                Err(lex.expected("keyword 'from'"))
            }
        },
        Tt::Lbrace => {
            lex.eat(source);
            match parse_list(lex, source) {
                Ok(specs) => parse_from(lex, source, specs),
                Err(e) => Err(e),
            }
        },
        Tt::Function => {
            lex.eat(source);
            parse_named_function(lex, source, start)
        },
        Tt::Class => {
            lex.eat(source);
            match lex.tt() {
                Tt::Id => {
                    let name = lex.text();
                    lex.skip();
                    lex.push_text(start, source);
                    let mut specs: Vec<ExportSpec> = Vec::new();
                    specs.push(ExportSpec { bind: name.clone(), name });
                    assert(specs.deep_view() =~= seq![same(name@)]);
                    Ok(Export::Named(specs))
                },
                _ => Err(lex.expected("class name")),
            }
        },
        tt => {
            if tt == Tt::Var || tt == Tt::Const || lex.at_word("let") {
                lex.eat(source);
                match parse_bindings(lex) {
                    Ok(specs) => {
                        if start <= lex.pos {
                            lex.push_text(start, source);
                        }
                        Ok(Export::Named(specs))
                    },
                    Err(e) => Err(e),
                }
            } else if lex.at_word("async") {
                lex.eat(source);
                match lex.tt() {
                    Tt::Function => {
                        let nl = lex.here().nl_before;
                        lex.skip();
                        if nl {
                            Err(lex.expected("no line terminator between 'function' and 'async'"))
                        } else {
                            parse_named_function(lex, source, start)
                        }
                    },
                    _ => Err(lex.expected("'function' following 'async'")),
                }
            } else {
                Err(lex.expected("keyword 'default' or '*' or '{' or declaration"))
            }
        },
    }
}

} // verus!
