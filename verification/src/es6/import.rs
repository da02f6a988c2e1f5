//! Import declarations: what they bind, and how they are read off the token
//! stream.

use vstd::prelude::*;
use crate::es6::error::{Error, ErrorView};
use crate::es6::lexer::{is_id, is_str_lit, left, Cursor, Lexer, Src, Tt};

verus! {

/// One name of a named import: `name as bind`.
#[derive(Debug, PartialEq, Eq, Hash)]
pub struct ImportSpec {
    pub name: String,
    pub bind: String,
}

pub struct ImportSpecView {
    pub name: Seq<char>,
    pub bind: Seq<char>,
}

impl View for ImportSpec {
    type V = ImportSpecView;

    open spec fn view(&self) -> ImportSpecView {
        ImportSpecView { name: self.name@, bind: self.bind@ }
    }
}

impl DeepView for ImportSpec {
    type V = ImportSpecView;

    open spec fn deep_view(&self) -> ImportSpecView {
        self@
    }
}

impl ImportSpec {
    /// The specifier that binds `name` of the module to `bind`.
    pub fn new(name: &str, bind: &str) -> (s: Self)
        ensures
            s@ == (ImportSpecView { name: name@, bind: bind@ }),
    {
        ImportSpec { name: name.to_owned(), bind: bind.to_owned() }
    }

    /// The specifier that binds `name` under its own name.
    pub fn same(name: &str) -> (s: Self)
        ensures
            s@ == (ImportSpecView { name: name@, bind: name@ }),
    {
        ImportSpec::new(name, name)
    }
}

/// What an import declaration binds besides the default export.
#[derive(Debug, PartialEq, Eq, Hash)]
pub enum Bindings {
    /// No bindings besides, possibly, the default one.
    Empty,
    NameSpace(String),
    Named(Vec<ImportSpec>),
}

pub enum BindingsView {
    Empty,
    NameSpace(Seq<char>),
    Named(Seq<ImportSpecView>),
}

impl View for Bindings {
    type V = BindingsView;

    open spec fn view(&self) -> BindingsView {
        match self {
            Bindings::Empty => BindingsView::Empty,
            Bindings::NameSpace(s) => BindingsView::NameSpace(s@),
            Bindings::Named(v) => BindingsView::Named(v.deep_view()),
        }
    }
}

/// An import declaration.
#[derive(Debug, PartialEq, Eq, Hash)]
pub struct Import {
    /// The module specifier as written, with its quotation marks.
    pub module_source: String,
    /// The value of the module specifier.
    pub module: String,
    pub default_bind: Option<String>,
    pub binds: Bindings,
}

pub struct ImportView {
    pub module_source: Seq<char>,
    pub module: Seq<char>,
    pub default_bind: Option<Seq<char>>,
    pub binds: BindingsView,
}

impl View for Import {
    type V = ImportView;

    open spec fn view(&self) -> ImportView {
        ImportView {
            module_source: self.module_source@,
            module: self.module@,
            default_bind: match self.default_bind {
                Some(s) => Some(s@),
                None => None,
            },
            binds: self.binds@,
        }
    }
}

impl DeepView for Import {
    type V = ImportView;

    open spec fn deep_view(&self) -> ImportView {
        self@
    }
}

impl Import {
    /// The import of a module for its effects alone.
    pub fn new(module_source: &str, module: String) -> (i: Self)
        ensures
            i@ == (ImportView {
                module_source: module_source@,
                module: module@,
                default_bind: None,
                binds: BindingsView::Empty,
            }),
    {
        Import {
            module_source: module_source.to_owned(),
            module,
            default_bind: None,
            binds: Bindings::Empty,
        }
    }
}

/// What follows the keyword `import`: a declaration, or `.meta`.
#[derive(Debug, PartialEq, Eq, Hash)]
pub enum ParsedImport {
    Import(Import),
    ImportMeta,
}

pub enum ParsedImportView {
    Import(ImportView),
    ImportMeta,
}

impl View for ParsedImport {
    type V = ParsedImportView;

    open spec fn view(&self) -> ParsedImportView {
        match self {
            ParsedImport::Import(i) => ParsedImportView::Import(i@),
            ParsedImport::ImportMeta => ParsedImportView::ImportMeta,
        }
    }
}

/// The rest of a braced list of import specifiers, after those in `acc`:
/// names, each with an optional `as` and binding, separated by commas, up to
/// the closing brace. Of the tokens only the whitespace is written.
pub open spec fn import_list(src: Src, c: Cursor, acc: Seq<ImportSpecView>) -> Result<
    (Seq<ImportSpecView>, Cursor),
    ErrorView,
>
    decreases left(src, c.pos),
{
    let t = src.toks[c.pos];
    if c.pos < 0 || c.pos >= src.toks.len() {
        Err(src.expected("import specifier or '}'"@, c.pos))
    } else if t.tt == Tt::Id || t.tt == Tt::Default {
        let c1 = c.eat(src);
        let u = src.toks[c1.pos];
        if is_id(u, "as"@) {
            let c2 = c1.eat(src);
            let v = src.toks[c2.pos];
            if v.tt == Tt::Id {
                let c3 = c2.eat(src);
                let w = src.toks[c3.pos];
                let acc1 = acc.push(ImportSpecView { name: t.text, bind: v.text });
                if w.tt == Tt::Rbrace {
                    Ok((acc1, c3.eat(src)))
                } else if w.tt == Tt::Comma {
                    import_list(src, c3.eat(src), acc1)
                } else {
                    Err(src.expected("',' or '}'"@, c3.pos))
                }
            } else {
                Err(src.expected("binding name after keyword 'as'"@, c2.pos))
            }
        } else if u.tt == Tt::Rbrace {
            Ok((acc.push(ImportSpecView { name: t.text, bind: t.text }), c1.eat(src)))
        } else if u.tt == Tt::Comma {
            import_list(src, c1.eat(src), acc.push(ImportSpecView { name: t.text, bind: t.text }))
        } else {
            Err(src.expected("',' or '}' or keyword 'as'"@, c1.pos))
        }
    } else if t.tt == Tt::Rbrace {
        Ok((acc, c.eat(src)))
    } else {
        Err(src.expected("import specifier or '}'"@, c.pos))
    }
}

/// The bindings of an import declaration: `* as name`, or a braced list.
/// `what` names them in the error for anything else.
pub open spec fn import_binds(src: Src, c: Cursor, what: Seq<char>) -> Result<
    (BindingsView, Cursor),
    ErrorView,
> {
    let t = src.toks[c.pos];
    if t.tt == Tt::Star {
        let c1 = c.eat(src);
        if is_id(src.toks[c1.pos], "as"@) {
            let c2 = c1.eat(src);
            if src.toks[c2.pos].tt == Tt::Id {
                Ok((BindingsView::NameSpace(src.toks[c2.pos].text), c2.eat(src)))
            } else {
                Err(src.expected("name space binding name"@, c2.pos))
            }
        } else {
            Err(src.expected("keyword 'as'"@, c1.pos))
        }
    } else if t.tt == Tt::Lbrace {
        match import_list(src, c.eat(src), Seq::empty()) {
            Ok((specs, c1)) => Ok((BindingsView::Named(specs), c1)),
            Err(e) => Err(e),
        }
    } else {
        Err(src.expected(what, c.pos))
    }
}

/// The end of an import declaration: `from` and the module specifier.
pub open spec fn import_from(
    src: Src,
    c: Cursor,
    default_bind: Option<Seq<char>>,
    binds: BindingsView,
) -> Result<(ParsedImportView, Cursor), ErrorView> {
    if is_id(src.toks[c.pos], "from"@) {
        let c1 = c.eat(src);
        let u = src.toks[c1.pos];
        if is_str_lit(u) {
            match src.value_at(c1.pos, c1.pos) {
                Ok(module) => Ok(
                    (
                        ParsedImportView::Import(
                            ImportView { module_source: u.text, module, default_bind, binds },
                        ),
                        c1.eat(src),
                    ),
                ),
                Err(e) => Err(e),
            }
        } else {
            Err(src.expected("module name (string literal)"@, c1.pos))
        }
    } else {
        Err(src.expected("keyword 'from'"@, c.pos))
    }
}

/// What follows the keyword `import`, beginning at the cursor: a bare module
/// specifier; a default binding, alone or with further bindings; `.meta`,
/// for which `__import_meta` is written; or bindings alone. The declaration
/// itself leaves only its whitespace in the output.
pub open spec fn import(src: Src, c: Cursor) -> Result<(ParsedImportView, Cursor), ErrorView> {
    let t = src.toks[c.pos];
    if is_str_lit(t) {
        match src.value_at(c.pos, c.pos) {
            Ok(module) => Ok(
                (
                    ParsedImportView::Import(
                        ImportView {
                            module_source: t.text,
                            module,
                            default_bind: None,
                            binds: BindingsView::Empty,
                        },
                    ),
                    c.eat(src),
                ),
            ),
            Err(e) => Err(e),
        }
    } else if t.tt == Tt::Id {
        let c1 = c.eat(src);
        if src.toks[c1.pos].tt == Tt::Comma {
            match import_binds(src, c1.eat(src), "bindings"@) {
                Ok((binds, c2)) => import_from(src, c2, Some(t.text), binds),
                Err(e) => Err(e),
            }
        } else {
            import_from(src, c1, Some(t.text), BindingsView::Empty)
        }
    } else if t.tt == Tt::Dot {
        let c1 = c.eat(src);
        if is_id(src.toks[c1.pos], "meta"@) {
            Ok((ParsedImportView::ImportMeta, c1.eat(src).write("__import_meta"@)))
        } else {
            Err(src.expected("keyword 'meta'"@, c1.pos))
        }
    } else {
        match import_binds(src, c, "module name (string literal) or bindings"@) {
            Ok((binds, c1)) => import_from(src, c1, None, binds),
            Err(e) => Err(e),
        }
    }
}

/// Whether a result of the executable reader is the outcome that the model
/// gives, with the analyzer and the output where the model leaves them.
pub open spec fn import_is(
    r: Result<ParsedImport, Error>,
    lex: Lexer,
    out: Seq<char>,
    model: Result<(ParsedImportView, Cursor), ErrorView>,
) -> bool {
    match model {
        Ok((p, c)) => r matches Ok(v) && v@ == p && lex.cursor(out) == c,
        Err(e) => r matches Err(x) && x@ == e,
    }
}

fn parse_list(lex: &mut Lexer, source: &mut String) -> (r: Result<Vec<ImportSpec>, Error>)
    requires
        old(lex).wf(),
    ensures
        final(lex).wf(),
        final(lex).src() == old(lex).src(),
        final(lex).pos >= old(lex).pos,
        match import_list(old(lex).src(), old(lex).cursor(old(source)@), Seq::empty()) {
            Ok((specs, c)) => r matches Ok(v) && v.deep_view() == specs && final(lex).cursor(
                final(source)@,
            ) == c,
            Err(e) => r matches Err(x) && x@ == e,
        },
{
    let mut imports: Vec<ImportSpec> = Vec::new();
    let ghost src = lex.src();
    let ghost goal = import_list(src, lex.cursor(source@), Seq::empty());
    assert(imports.deep_view() =~= Seq::empty());
    loop
        invariant
            lex.wf(),
            lex.src() == src,
            src == old(lex).src(),
            lex.pos >= old(lex).pos,
            goal == import_list(old(lex).src(), old(lex).cursor(old(source)@), Seq::empty()),
            import_list(src, lex.cursor(source@), imports.deep_view()) == goal,
        decreases lex.toks@.len() - lex.pos,
    {
        let ghost acc = imports.deep_view();
        match lex.tt() {
            Tt::Id | Tt::Default => {
                let name = lex.text();
                lex.eat(source);
                if lex.at_word("as") {
                    lex.eat(source);
                    match lex.tt() {
                        Tt::Id => {
                            let bind = lex.text();
                            lex.eat(source);
                            imports.push(ImportSpec { name, bind });
                            assert(imports.deep_view() =~= acc.push(
                                ImportSpecView { name: name@, bind: bind@ },
                            ));
                            match lex.tt() {
                                Tt::Rbrace => {
                                    lex.eat(source);
                                    return Ok(imports);
                                },
                                Tt::Comma => {
                                    lex.eat(source);
                                },
                                _ => {
                                    return Err(lex.expected("',' or '}'"));
                                },
                            }
                        },
                        _ => {
                            return Err(lex.expected("binding name after keyword 'as'"));
                        },
                    }
                } else {
                    match lex.tt() {
                        Tt::Rbrace => {
                            lex.eat(source);
                            imports.push(ImportSpec { name: name.clone(), bind: name });
                            assert(imports.deep_view() =~= acc.push(
                                ImportSpecView { name: name@, bind: name@ },
                            ));
                            return Ok(imports);
                        },
                        Tt::Comma => {
                            lex.eat(source);
                            imports.push(ImportSpec { name: name.clone(), bind: name });
                            assert(imports.deep_view() =~= acc.push(
                                ImportSpecView { name: name@, bind: name@ },
                            ));
                        },
                        _ => {
                            return Err(lex.expected("',' or '}' or keyword 'as'"));
                        },
                    }
                }
            },
            Tt::Rbrace => {
                lex.eat(source);
                return Ok(imports);
            },
            _ => {
                return Err(lex.expected("import specifier or '}'"));
            },
        }
    }
}

fn parse_binds(lex: &mut Lexer, source: &mut String, what: &'static str) -> (r: Result<
    Bindings,
    Error,
>)
    requires
        old(lex).wf(),
    ensures
        final(lex).wf(),
        final(lex).src() == old(lex).src(),
        final(lex).pos >= old(lex).pos,
        match import_binds(old(lex).src(), old(lex).cursor(old(source)@), what@) {
            Ok((b, c)) => r matches Ok(v) && v@ == b && final(lex).cursor(final(source)@) == c,
            Err(e) => r matches Err(x) && x@ == e,
        },
{
    match lex.tt() {
        Tt::Star => {
            lex.eat(source);
            if lex.at_word("as") {
                lex.eat(source);
                match lex.tt() {
                    Tt::Id => {
                        let name_space = lex.text();
                        lex.eat(source);
                        Ok(Bindings::NameSpace(name_space))
                    },
                    _ => Err(lex.expected("name space binding name")),
                }
            } else {
                Err(lex.expected("keyword 'as'"))
            }
        },
        Tt::Lbrace => {
            lex.eat(source);
            match parse_list(lex, source) {
                Ok(imports) => Ok(Bindings::Named(imports)),
                Err(e) => Err(e),
            }
        },
        _ => Err(lex.expected(what)),
    }
}

fn parse_from(
    lex: &mut Lexer,
    source: &mut String,
    default_bind: Option<String>,
    binds: Bindings,
) -> (r: Result<ParsedImport, Error>)
    requires
        old(lex).wf(),
    ensures
        final(lex).wf(),
        final(lex).src() == old(lex).src(),
        final(lex).pos >= old(lex).pos,
        import_is(
            r,
            *final(lex),
            final(source)@,
            import_from(
                old(lex).src(),
                old(lex).cursor(old(source)@),
                match default_bind {
                    Some(s) => Some(s@),
                    None => None,
                },
                binds@,
            ),
        ),
{
    if lex.at_word("from") {
        lex.eat(source);
        match lex.tt() {
            Tt::StrLitSgl | Tt::StrLitDbl => {
                let module_source = lex.text();
                let at = lex.pos;
                lex.eat(source);
                match lex.str_value(at, at) {
                    Ok(module) => Ok(
                        ParsedImport::Import(Import { module_source, module, default_bind, binds }),
                    ),
                    Err(e) => Err(e),
                }
            },
            _ => Err(lex.expected("module name (string literal)")),
        }
    } else {
        Err(lex.expected("keyword 'from'"))
    }
}

/// Reads what follows the keyword `import`, which the analyzer has just
/// passed, and appends to `source` what the declaration leaves in the
/// output.
pub fn parse_import(lex: &mut Lexer, source: &mut String) -> (r: Result<ParsedImport, Error>)
    requires
        old(lex).wf(),
    ensures
        final(lex).wf(),
        final(lex).src() == old(lex).src(),
        final(lex).pos >= old(lex).pos,
        import_is(
            r,
            *final(lex),
            final(source)@,
            import(old(lex).src(), old(lex).cursor(old(source)@)),
        ),
{
    match lex.tt() {
        Tt::StrLitSgl | Tt::StrLitDbl => {
            let module_source = lex.text();
            let at = lex.pos;
            lex.eat(source);
            match lex.str_value(at, at) {
                Ok(module) => Ok(
                    ParsedImport::Import(
                        Import {
                            module_source,
                            module,
                            default_bind: None,
                            binds: Bindings::Empty,
                        },
                    ),
                ),
                Err(e) => Err(e),
            }
        },
        Tt::Id => {
            let default = lex.text();
            lex.eat(source);
            match lex.tt() {
                Tt::Comma => {
                    lex.eat(source);
                    match parse_binds(lex, source, "bindings") {
                        Ok(binds) => parse_from(lex, source, Some(default), binds),
                        Err(e) => Err(e),
                    }
                },
                _ => parse_from(lex, source, Some(default), Bindings::Empty),
            }
        },
        Tt::Dot => {
            lex.eat(source);
            if lex.at_word("meta") {
                lex.eat(source);
                source.append("__import_meta");
                Ok(ParsedImport::ImportMeta)
            } else {
                Err(lex.expected("keyword 'meta'"))
            }
        },
        _ => {
            match parse_binds(lex, source, "module name (string literal) or bindings") {
                Ok(binds) => parse_from(lex, source, None, binds),
                Err(e) => Err(e),
            }
        },
    }
}

} // verus!
