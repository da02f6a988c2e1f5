//! Rewriting keeps the lines: the text that stays of a module has as many
//! line feeds as the module had.
//!
//! A declaration that is taken out leaves the whitespace before each of its
//! tokens, comments and line feeds with it. So the lines stay as long as
//! the tokens that are taken out hold no line feed themselves. Of these
//! only a string literal can hold one, where it goes on over a line end:
//! the literal by which a declaration names its module.

use vstd::prelude::*;
use crate::es6::error::ErrorView;
use crate::es6::export::{
    default_function,
    export,
    export_bindings,
    export_default,
    export_from,
    export_list,
    named_function,
    ExportSpecView,
    ExportView,
};
use crate::es6::import::{
    import,
    import_binds,
    import_from,
    import_list,
    BindingsView,
    ImportSpecView,
    ImportView,
    ParsedImportView,
};
use crate::es6::lexer::{
    has_error,
    is_id,
    is_str_lit,
    keyword,
    left,
    lexed,
    refine,
    refined,
    seek,
    skip_to,
    source_of,
    tokens_text,
    Cursor,
    Lexer,
    Src,
    TokView,
    Tt,
};
use crate::es6::{cjs, onward, scan, Scan};
use crate::{lemma_count_concat, lemma_count_none, newlines};

verus! {

/// The source code that the first `k` tokens cover.
pub open spec fn covered(src: Src, k: int) -> Seq<char> {
    source_of(src.toks.subrange(0, k))
}

/// The line feeds among the first `k` tokens and the whitespace before
/// them.
pub open spec fn feeds(src: Src, k: int) -> nat {
    newlines(covered(src, k))
}

/// Whether the token `k` is a string literal that stands where a
/// declaration names its module: directly after `import` or `from`.
pub open spec fn names_module(src: Src, k: int) -> bool {
    &&& 0 < k < src.toks.len()
    &&& is_str_lit(src.toks[k])
    &&& (src.toks[k - 1].tt == Tt::Import || is_id(src.toks[k - 1], "from"@))
}

/// Whether the text of the token `k` holds no line feed, unless it is one
/// that the rewriter never drops: a string literal is dropped only where
/// it names a module.
pub open spec fn quiet(src: Src, k: int) -> bool {
    let t = src.toks[k];
    ||| t.tt == Tt::Other
    ||| t.tt == Tt::Error
    ||| is_str_lit(t) && !names_module(src, k)
    ||| newlines(t.text) == 0
}

/// Whether the tokens end with their only end of file, and the tokens that
/// may be dropped hold no line feed.
pub open spec fn tidy(src: Src) -> bool {
    &&& src.toks.len() > 0
    &&& forall|k: int|
        0 <= k < src.toks.len() ==> ((#[trigger] src.toks[k]).tt == Tt::Eof) == (k
            == src.toks.len() - 1)
    &&& forall|k: int| 0 <= k < src.toks.len() ==> #[trigger] quiet(src, k)
}

/// Whether the output grew from `a` to `b` by as many line feeds as the
/// tokens between them hold, whitespace and all.
pub open spec fn keeps(src: Src, a: Cursor, b: Cursor) -> bool {
    &&& 0 <= a.pos <= b.pos < src.toks.len()
    &&& newlines(b.out) + feeds(src, a.pos) == newlines(a.out) + feeds(src, b.pos)
}

/// One more token covers its whitespace and its text.
pub proof fn lemma_step(src: Src, k: int)
    requires
        0 <= k < src.toks.len(),
    ensures
        feeds(src, k + 1) == feeds(src, k) + newlines(src.toks[k].ws_before) + newlines(
            src.toks[k].text,
        ),
{
    let upto = src.toks.subrange(0, k + 1);
    assert(upto.drop_last() =~= src.toks.subrange(0, k));
    assert(upto.last() == src.toks[k]);
    lemma_count_concat(covered(src, k), src.toks[k].ws_before, '\n');
    lemma_count_concat(covered(src, k) + src.toks[k].ws_before, src.toks[k].text, '\n');
}

/// A token that is dropped keeps the lines.
pub proof fn lemma_eat(src: Src, c: Cursor)
    requires
        tidy(src),
        0 <= c.pos < src.toks.len(),
        src.toks[c.pos].tt != Tt::Eof,
        src.toks[c.pos].tt != Tt::Other,
        src.toks[c.pos].tt != Tt::Error,
        is_str_lit(src.toks[c.pos]) ==> names_module(src, c.pos),
    ensures
        keeps(src, c, c.eat(src)),
{
    assert(quiet(src, c.pos));
    lemma_step(src, c.pos);
    lemma_count_concat(c.out, src.toks[c.pos].ws_before, '\n');
}

/// A token that is copied keeps the lines.
pub proof fn lemma_eat_whole(src: Src, c: Cursor)
    requires
        tidy(src),
        0 <= c.pos < src.toks.len(),
        src.toks[c.pos].tt != Tt::Eof,
    ensures
        keeps(src, c, c.eat_whole(src)),
{
    lemma_step(src, c.pos);
    lemma_count_concat(c.out, src.toks[c.pos].ws_before, '\n');
    lemma_count_concat(c.out + src.toks[c.pos].ws_before, src.toks[c.pos].text, '\n');
}

/// The text of a run of tokens holds the line feeds of the tokens, but for
/// the whitespace before the first.
pub proof fn lemma_text(src: Src, from: int, to: int)
    requires
        0 <= from < to <= src.toks.len(),
    ensures
        newlines(tokens_text(src, from, to)) + newlines(src.toks[from].ws_before) + feeds(
            src,
            from,
        ) == feeds(src, to),
    decreases to - from,
{
    lemma_step(src, to - 1);
    if to > from + 1 {
        lemma_text(src, from, to - 1);
        lemma_count_concat(tokens_text(src, from, to - 1), src.toks[to - 1].ws_before, '\n');
        lemma_count_concat(
            tokens_text(src, from, to - 1) + src.toks[to - 1].ws_before,
            src.toks[to - 1].text,
            '\n',
        );
    }
}

/// A declaration whose first token was dropped and which was then written
/// as it stands, from that token up to the token `to`, keeps the lines.
pub proof fn lemma_verbatim(src: Src, c: Cursor, to: int)
    requires
        tidy(src),
        0 <= c.pos < to < src.toks.len(),
    ensures
        keeps(src, c, Cursor { pos: to, out: c.eat(src).out + tokens_text(src, c.pos, to) }),
{
    lemma_text(src, c.pos, to);
    lemma_count_concat(c.out, src.toks[c.pos].ws_before, '\n');
    lemma_count_concat(c.eat(src).out, tokens_text(src, c.pos, to), '\n');
}

/// The list of an import declaration keeps the lines.
pub proof fn lemma_import_list(src: Src, c: Cursor, acc: Seq<ImportSpecView>)
    requires
        tidy(src),
        0 <= c.pos < src.toks.len(),
    ensures
        import_list(src, c, acc) matches Ok((_, c1)) ==> keeps(src, c, c1),
    decreases left(src, c.pos),
{
    let t = src.toks[c.pos];
    if t.tt == Tt::Id || t.tt == Tt::Default {
        lemma_eat(src, c);
        let c1 = c.eat(src);
        let u = src.toks[c1.pos];
        if is_id(u, "as"@) {
            lemma_eat(src, c1);
            let c2 = c1.eat(src);
            let v = src.toks[c2.pos];
            if v.tt == Tt::Id {
                lemma_eat(src, c2);
                let c3 = c2.eat(src);
                let w = src.toks[c3.pos];
                let acc1 = acc.push(ImportSpecView { name: t.text, bind: v.text });
                if w.tt == Tt::Rbrace {
                    lemma_eat(src, c3);
                } else if w.tt == Tt::Comma {
                    lemma_eat(src, c3);
                    lemma_import_list(src, c3.eat(src), acc1);
                }
            }
        } else if u.tt == Tt::Rbrace {
            lemma_eat(src, c1);
        } else if u.tt == Tt::Comma {
            lemma_eat(src, c1);
            lemma_import_list(
                src,
                c1.eat(src),
                acc.push(ImportSpecView { name: t.text, bind: t.text }),
            );
        }
    } else if t.tt == Tt::Rbrace {
        lemma_eat(src, c);
    }
}

/// The bindings of an import declaration keep the lines.
pub proof fn lemma_import_binds(src: Src, c: Cursor, what: Seq<char>)
    requires
        tidy(src),
        0 <= c.pos < src.toks.len(),
    ensures
        import_binds(src, c, what) matches Ok((_, c1)) ==> keeps(src, c, c1),
{
    let t = src.toks[c.pos];
    if t.tt == Tt::Star {
        lemma_eat(src, c);
        let c1 = c.eat(src);
        if is_id(src.toks[c1.pos], "as"@) {
            lemma_eat(src, c1);
            let c2 = c1.eat(src);
            if src.toks[c2.pos].tt == Tt::Id {
                lemma_eat(src, c2);
            }
        }
    } else if t.tt == Tt::Lbrace {
        lemma_eat(src, c);
        lemma_import_list(src, c.eat(src), Seq::empty());
    }
}

/// The end of an import declaration keeps the lines.
pub proof fn lemma_import_from(
    src: Src,
    c: Cursor,
    default_bind: Option<Seq<char>>,
    binds: BindingsView,
)
    requires
        tidy(src),
        0 <= c.pos < src.toks.len(),
    ensures
        import_from(src, c, default_bind, binds) matches Ok((_, c1)) ==> keeps(src, c, c1),
{
    if is_id(src.toks[c.pos], "from"@) {
        lemma_eat(src, c);
        let c1 = c.eat(src);
        if is_str_lit(src.toks[c1.pos]) {
            lemma_eat(src, c1);
        }
    }
}

/// An import declaration keeps the lines, from the token after `import`
/// on.
pub proof fn lemma_import(src: Src, c: Cursor)
    requires
        tidy(src),
        0 < c.pos < src.toks.len(),
        src.toks[c.pos - 1].tt == Tt::Import,
    ensures
        import(src, c) matches Ok((_, c1)) ==> keeps(src, c, c1),
{
    let t = src.toks[c.pos];
    if is_str_lit(t) {
        lemma_eat(src, c);
    } else if t.tt == Tt::Id {
        lemma_eat(src, c);
        let c1 = c.eat(src);
        if src.toks[c1.pos].tt == Tt::Comma {
            lemma_eat(src, c1);
            let c2 = c1.eat(src);
            lemma_import_binds(src, c2, "bindings"@);
            match import_binds(src, c2, "bindings"@) {
                Ok((binds, c3)) => {
                    lemma_import_from(src, c3, Some(t.text), binds);
                },
                Err(_) => {},
            }
        } else {
            lemma_import_from(src, c1, Some(t.text), BindingsView::Empty);
        }
    } else if t.tt == Tt::Dot {
        lemma_eat(src, c);
        let c1 = c.eat(src);
        if is_id(src.toks[c1.pos], "meta"@) {
            lemma_eat(src, c1);
            reveal_strlit("__import_meta");
            lemma_count_none("__import_meta"@, '\n', "__import_meta"@.len());
            lemma_count_concat(c1.eat(src).out, "__import_meta"@, '\n');
        }
    } else {
        lemma_import_binds(src, c, "module name (string literal) or bindings"@);
        match import_binds(src, c, "module name (string literal) or bindings"@) {
            Ok((binds, c1)) => {
                lemma_import_from(src, c1, None, binds);
            },
            Err(_) => {},
        }
    }
}

/// Seeking stays among the tokens.
pub proof fn lemma_seek_range(src: Src, from: int, at: nat)
    requires
        0 <= from < src.toks.len(),
    ensures
        from <= seek(src, from, at) < src.toks.len(),
    decreases left(src, from),
{
    if from + 1 >= src.toks.len() || src.toks[from].start >= at {
    } else {
        lemma_seek_range(src, from + 1, at);
    }
}

/// The list of an export declaration keeps the lines.
pub proof fn lemma_export_list(src: Src, c: Cursor, acc: Seq<ExportSpecView>)
    requires
        tidy(src),
        0 <= c.pos < src.toks.len(),
    ensures
        export_list(src, c, acc) matches Ok((_, c1)) ==> keeps(src, c, c1),
    decreases left(src, c.pos),
{
    let t = src.toks[c.pos];
    if t.tt == Tt::Id || t.tt == Tt::Default {
        lemma_eat(src, c);
        let c1 = c.eat(src);
        let u = src.toks[c1.pos];
        if is_id(u, "as"@) {
            lemma_eat(src, c1);
            let c2 = c1.eat(src);
            let v = src.toks[c2.pos];
            if v.tt == Tt::Id || v.tt == Tt::Default {
                lemma_eat(src, c2);
                let c3 = c2.eat(src);
                let w = src.toks[c3.pos];
                let acc1 = acc.push(ExportSpecView { bind: t.text, name: v.text });
                if w.tt == Tt::Rbrace {
                    lemma_eat(src, c3);
                } else if w.tt == Tt::Comma {
                    lemma_eat(src, c3);
                    lemma_export_list(src, c3.eat(src), acc1);
                }
            }
        } else if u.tt == Tt::Rbrace {
            lemma_eat(src, c1);
        } else if u.tt == Tt::Comma {
            lemma_eat(src, c1);
            lemma_export_list(src, c1.eat(src), acc.push(crate::es6::export::same(t.text)));
        }
    } else if t.tt == Tt::Rbrace {
        lemma_eat(src, c);
    }
}

/// What follows an export list keeps the lines.
pub proof fn lemma_export_from(src: Src, c: Cursor, specs: Seq<ExportSpecView>)
    requires
        tidy(src),
        0 <= c.pos < src.toks.len(),
    ensures
        export_from(src, c, specs) matches Ok((_, c1)) ==> keeps(src, c, c1),
{
    if is_id(src.toks[c.pos], "from"@) {
        lemma_eat(src, c);
        let c1 = c.eat(src);
        if is_str_lit(src.toks[c1.pos]) {
            lemma_eat(src, c1);
        }
    }
}

/// The declarators of an exported declaration end among the tokens, after
/// the token that they begin at.
pub proof fn lemma_export_bindings(src: Src, pos: int, acc: Seq<ExportSpecView>)
    requires
        tidy(src),
        0 <= pos < src.toks.len(),
    ensures
        export_bindings(src, pos, acc) matches Ok((_, p)) ==> pos < p < src.toks.len(),
    decreases left(src, pos),
{
    let t = src.toks[pos];
    if t.tt == Tt::Id {
        let acc1 = acc.push(crate::es6::export::same(t.text));
        let u = src.toks[pos + 1];
        if u.tt == Tt::Eq {
            match skip_to(src, pos + 2) {
                Ok(p) => {
                    lemma_seek_range(
                        src,
                        pos + 2,
                        crate::es6::lexer::skipped(src.input, (pos + 2) as nat).at,
                    );
                    if src.toks[p].tt == Tt::Comma {
                        lemma_export_bindings(src, p + 1, acc1);
                    }
                },
                Err(_) => {},
            }
        } else if u.tt == Tt::Comma {
            lemma_export_bindings(src, pos + 2, acc1);
        }
    }
}

/// An exported function that is written as it stands keeps the lines.
pub proof fn lemma_named_function(src: Src, c0: Cursor, c: Cursor)
    requires
        tidy(src),
        0 <= c0.pos < c.pos < src.toks.len(),
        c.out == c0.eat(src).out,
    ensures
        named_function(src, c, c0.pos) matches Ok((_, c1)) ==> keeps(src, c0, c1),
{
    let p = if src.toks[c.pos].tt == Tt::Star {
        c.pos + 1
    } else {
        c.pos
    };
    if src.toks[p].tt == Tt::Id {
        lemma_verbatim(src, c0, p + 1);
    }
}

/// A default-exported function keeps the lines.
pub proof fn lemma_default_function(src: Src, c: Cursor)
    requires
        tidy(src),
        0 <= c.pos < src.toks.len(),
    ensures
        default_function(src, c) matches Ok((_, c1)) ==> keeps(src, c, c1),
{
    let c1 = if src.toks[c.pos].tt == Tt::Star {
        c.eat_whole(src)
    } else {
        c
    };
    if src.toks[c.pos].tt == Tt::Star {
        lemma_eat_whole(src, c);
    }
    if src.toks[c1.pos].tt == Tt::Id {
        lemma_eat_whole(src, c1);
    }
}

/// What is put before a default-exported expression holds no line feed.
pub proof fn lemma_default_piece()
    ensures
        newlines("const __default = "@) == 0,
{
    reveal_strlit("const __default = ");
    lemma_count_none("const __default = "@, '\n', "const __default = "@.len());
}

/// What follows `export default` keeps the lines.
pub proof fn lemma_export_default(src: Src, c: Cursor)
    requires
        tidy(src),
        0 <= c.pos < src.toks.len(),
    ensures
        export_default(src, c) matches Ok((_, c1)) ==> keeps(src, c, c1),
{
    let t = src.toks[c.pos];
    lemma_default_piece();
    if t.tt == Tt::Class {
        lemma_eat_whole(src, c);
        let c1 = c.eat_whole(src);
        if src.toks[c1.pos].tt == Tt::Id {
            lemma_eat_whole(src, c1);
        }
    } else if t.tt == Tt::Function {
        lemma_eat_whole(src, c);
        lemma_default_function(src, c.eat_whole(src));
    } else if is_id(t, "async"@) {
        let h = src.toks[c.pos + 1];
        lemma_eat_whole(src, c);
        if !h.nl_before && h.tt == Tt::Function {
            lemma_eat_whole(src, c.eat_whole(src));
            lemma_default_function(src, c.eat_whole(src).eat_whole(src));
        } else {
            lemma_count_concat(c.out, "const __default = "@, '\n');
            lemma_count_concat(c.out + "const __default = "@, t.ws_before, '\n');
            lemma_count_concat(c.out + "const __default = "@ + t.ws_before, t.text, '\n');
            lemma_step(src, c.pos);
        }
    } else {
        lemma_count_concat(c.out, "const __default = "@, '\n');
    }
}

/// An export declaration keeps the lines.
pub proof fn lemma_export(src: Src, c: Cursor)
    requires
        tidy(src),
        0 <= c.pos < src.toks.len(),
    ensures
        export(src, c) matches Ok((_, c1)) ==> keeps(src, c, c1),
{
    let t = src.toks[c.pos];
    let c1 = c.eat(src);
    if t.tt == Tt::Default {
        lemma_eat(src, c);
        lemma_export_default(src, c1);
    } else if t.tt == Tt::Star {
        lemma_eat(src, c);
        if is_id(src.toks[c1.pos], "from"@) {
            lemma_eat(src, c1);
            let c2 = c1.eat(src);
            if is_str_lit(src.toks[c2.pos]) {
                lemma_eat(src, c2);
            }
        }
    } else if t.tt == Tt::Lbrace {
        lemma_eat(src, c);
        lemma_export_list(src, c1, Seq::empty());
        match export_list(src, c1, Seq::empty()) {
            Ok((specs, c2)) => {
                lemma_export_from(src, c2, specs);
            },
            Err(_) => {},
        }
    } else if t.tt == Tt::Var || t.tt == Tt::Const || is_id(t, "let"@) {
        lemma_export_bindings(src, c1.pos, Seq::empty());
        match export_bindings(src, c1.pos, Seq::empty()) {
            Ok((specs, p)) => {
                lemma_verbatim(src, c, p);
            },
            Err(_) => {},
        }
    } else if t.tt == Tt::Function {
        lemma_named_function(src, c, c1);
    } else if t.tt == Tt::Class {
        if src.toks[c1.pos].tt == Tt::Id {
            lemma_verbatim(src, c, c1.pos + 1);
        }
    } else if is_id(t, "async"@) {
        let f = src.toks[c1.pos];
        if f.tt == Tt::Function && !f.nl_before {
            lemma_named_function(src, c, c1.skip());
        }
    }
}

/// A call of `require`, or what looked like one, that is written as it
/// stands up to the token `to`, and the scan from there on, keep the
/// lines.
pub proof fn lemma_scan_after(
    src: Src,
    allow_require: bool,
    c: Cursor,
    to: int,
    deps: Seq<Seq<char>>,
    imports: Seq<ImportView>,
    exports: Seq<ExportView>,
)
    requires
        tidy(src),
        0 <= c.pos < to < src.toks.len(),
    ensures
        scan(
            src,
            allow_require,
            Cursor { pos: to, out: c.eat(src).out + tokens_text(src, c.pos, to) },
            deps,
            imports,
            exports,
        ) matches Ok(s) ==> newlines(s.source) + feeds(src, c.pos) == newlines(c.out) + feeds(
            src,
            src.toks.len() as int,
        ),
    decreases left(src, c.pos), 0nat,
{
    lemma_verbatim(src, c, to);
    lemma_scan(
        src,
        allow_require,
        Cursor { pos: to, out: c.eat(src).out + tokens_text(src, c.pos, to) },
        deps,
        imports,
        exports,
    );
}

/// The scan from an export declaration on keeps the lines.
pub proof fn lemma_scan_export(
    src: Src,
    allow_require: bool,
    c: Cursor,
    deps: Seq<Seq<char>>,
    imports: Seq<ImportView>,
    exports: Seq<ExportView>,
)
    requires
        tidy(src),
        0 <= c.pos < src.toks.len(),
        src.toks[c.pos].tt == Tt::Export,
    ensures
        scan(src, allow_require, c, deps, imports, exports) matches Ok(s) ==> newlines(s.source)
            + feeds(src, c.pos) == newlines(c.out) + feeds(src, src.toks.len() as int),
    decreases left(src, c.pos), 0nat,
{
    lemma_eat(src, c);
    lemma_export(src, c.eat(src));
    match export(src, c.eat(src)) {
        Ok((x, c1)) => {
            lemma_scan(src, allow_require, onward(c1, c.pos), deps, imports, exports.push(x));
        },
        Err(_) => {},
    }
}

/// The scan from an import declaration on keeps the lines.
pub proof fn lemma_scan_import(
    src: Src,
    allow_require: bool,
    c: Cursor,
    deps: Seq<Seq<char>>,
    imports: Seq<ImportView>,
    exports: Seq<ExportView>,
)
    requires
        tidy(src),
        0 <= c.pos < src.toks.len(),
        src.toks[c.pos].tt == Tt::Import,
    ensures
        scan(src, allow_require, c, deps, imports, exports) matches Ok(s) ==> newlines(s.source)
            + feeds(src, c.pos) == newlines(c.out) + feeds(src, src.toks.len() as int),
    decreases left(src, c.pos), 0nat,
{
    lemma_eat(src, c);
    lemma_import(src, c.eat(src));
    match import(src, c.eat(src)) {
        Ok((ParsedImportView::Import(i), c1)) => {
            lemma_scan(src, allow_require, onward(c1, c.pos), deps, imports.push(i), exports);
        },
        Ok((ParsedImportView::ImportMeta, c1)) => {
            lemma_scan(src, allow_require, onward(c1, c.pos), deps, imports, exports);
        },
        Err(_) => {},
    }
}

/// The scan of a module keeps the lines: the text that stays holds the
/// line feeds of all the tokens from the cursor on.
pub proof fn lemma_scan(
    src: Src,
    allow_require: bool,
    c: Cursor,
    deps: Seq<Seq<char>>,
    imports: Seq<ImportView>,
    exports: Seq<ExportView>,
)
    requires
        tidy(src),
        0 <= c.pos < src.toks.len(),
    ensures
        scan(src, allow_require, c, deps, imports, exports) matches Ok(s) ==> newlines(s.source)
            + feeds(src, c.pos) == newlines(c.out) + feeds(src, src.toks.len() as int),
    decreases left(src, c.pos), 1nat,
{
    let t = src.toks[c.pos];
    if t.tt == Tt::Eof {
        assert(quiet(src, c.pos));
        lemma_step(src, c.pos);
        lemma_count_concat(c.out, t.ws_before, '\n');
    } else if t.tt == Tt::Export {
        lemma_scan_export(src, allow_require, c, deps, imports, exports);
    } else if t.tt == Tt::Import {
        lemma_scan_import(src, allow_require, c, deps, imports, exports);
    } else if allow_require && is_id(t, "require"@) {
        let p = c.pos + 1;
        if src.toks[p].tt != Tt::Lparen {
            lemma_scan_after(src, allow_require, c, p, deps, imports, exports);
        } else if !is_str_lit(src.toks[p + 1]) {
            lemma_scan_after(src, allow_require, c, p + 1, deps, imports, exports);
        } else if src.toks[p + 2].tt != Tt::Rparen {
            lemma_scan_after(src, allow_require, c, p + 2, deps, imports, exports);
        } else {
            match src.value_at(p + 1, c.pos) {
                Ok(dep) => {
                    lemma_scan_after(
                        src,
                        allow_require,
                        c,
                        p + 3,
                        crate::es6::insert(deps, dep),
                        imports,
                        exports,
                    );
                },
                Err(_) => {},
            }
        }
    } else {
        lemma_eat_whole(src, c);
        lemma_scan(src, allow_require, c.eat_whole(src), deps, imports, exports);
    }
}

/// Giving the tokens their final types leaves the source code that they
/// cover as it is.
pub proof fn lemma_source_refined(raw: Seq<TokView>)
    ensures
        source_of(refined(raw)) == source_of(raw),
    decreases raw.len(),
{
    if raw.len() > 0 {
        lemma_source_refined(raw.drop_last());
        assert(refined(raw).drop_last() =~= refined(raw.drop_last()));
        assert(refined(raw).last() == refine(raw.last()));
    }
}

/// A text that does not contain the line feed counts none.
pub proof fn lemma_no_feed(s: Seq<char>)
    requires
        !s.contains('\n'),
    ensures
        newlines(s) == 0,
{
    assert forall|i: int| 0 <= i < s.len() implies s[i] != '\n' by {
        if s[i] == '\n' {
            assert(s.contains('\n'));
        }
    }
    lemma_count_none(s, '\n', s.len());
}

/// A token that got its type from its text holds no line feed.
pub proof fn lemma_keyword_quiet(text: Seq<char>)
    ensures
        keyword(text) != Tt::Other ==> newlines(text) == 0,
{
    reveal_strlit("export");
    reveal_strlit("import");
    reveal_strlit("default");
    reveal_strlit("class");
    reveal_strlit("function");
    reveal_strlit("var");
    reveal_strlit("const");
    reveal_strlit("*");
    reveal_strlit("{");
    reveal_strlit("}");
    reveal_strlit("(");
    reveal_strlit(")");
    reveal_strlit(",");
    reveal_strlit(".");
    reveal_strlit("=");
    if keyword(text) != Tt::Other {
        lemma_count_none(text, '\n', text.len());
    }
}

/// The tokens of an analyzer are tidy where the string literals that name
/// a module hold no line feed.
pub proof fn lemma_tidy(lex: Lexer)
    requires
        lex.wf(),
        forall|k: int| #[trigger] names_module(lex.src(), k) ==> newlines(lex.tokens()[k].text) == 0,
    ensures
        tidy(lex.src()),
{
    let src = lex.src();
    let raw = lexed(lex.input@);
    assert forall|k: int| 0 <= k < src.toks.len() implies ((#[trigger] src.toks[k]).tt == Tt::Eof)
        == (k == src.toks.len() - 1) by {
        lex.lemma_eof_is_last(k);
    }
    assert forall|k: int| 0 <= k < src.toks.len() implies #[trigger] quiet(src, k) by {
        lex.lemma_eof_is_last(k);
        let t = src.toks[k];
        assert(t == refine(raw[k]));
        assert(crate::es6::lexer::coarse(raw[k].tt));
        if raw[k].tt == Tt::Other {
            lemma_keyword_quiet(t.text);
        } else if raw[k].tt == Tt::Id {
            lemma_no_feed(t.text);
        } else if raw[k].tt == Tt::Eof {
            assert(raw.last() == raw[raw.len() - 1]);
            lemma_count_none(t.text, '\n', 0);
        } else if raw[k].tt == Tt::Error {
        } else {
            assert(is_str_lit(t));
            if names_module(src, k) {
                assert(newlines(lex.tokens()[k].text) == 0);
            }
        }
    }
}

/// Rewriting keeps the lines. Where lexical analysis did not give up, the
/// text that stays of a module has as many line feeds as the input, as
/// long as no string literal that names a module, directly after `import`
/// or `from`, goes on over a line end: such a literal is taken out with
/// the line feed in it. All other string literals may hold line feeds.
pub proof fn lemma_line_preserving(lex: Lexer, allow_require: bool)
    requires
        lex.wf(),
        !has_error(lex.tokens()),
        forall|k: int| #[trigger] names_module(lex.src(), k) ==> newlines(lex.tokens()[k].text) == 0,
    ensures
        cjs(lex.src(), allow_require, Cursor { pos: 0, out: Seq::empty() }) matches Ok(m)
            ==> newlines(m.source) == newlines(lex.input@),
{
    let src = lex.src();
    let raw = lexed(lex.input@);
    let start = Cursor { pos: 0, out: Seq::empty() };
    lemma_tidy(lex);
    lemma_scan(src, allow_require, start, Seq::empty(), Seq::empty(), Seq::empty());
    assert(!has_error(raw)) by {
        if has_error(raw) {
            let i = choose|i: int| 0 <= i < raw.len() && (#[trigger] raw[i]).tt == Tt::Error;
            lex.lemma_eof_is_last(i);
            assert(lex.tokens()[i].tt == Tt::Error);
        }
    }
    lemma_source_refined(raw);
    assert(src.toks.subrange(0, src.toks.len() as int) =~= src.toks);
    assert(src.toks.subrange(0, 0) =~= Seq::<TokView>::empty());
    lemma_count_none(Seq::<char>::empty(), '\n', 0);
}

} // verus!
