//! The modules that a file depends on are listed once each: a specifier
//! that is met again is not added again.

use vstd::prelude::*;
use crate::es6::export::{export, ExportView};
use crate::es6::import::{import, ImportView, ParsedImportView};
use crate::es6::lexer::{is_id, is_str_lit, left, tokens_text, Cursor, Src, Tt};
use crate::es6::{cjs, export_deps, import_deps, insert, onward, scan};

verus! {

/// Adding a specifier leaves every specifier listed once.
pub proof fn lemma_insert_once(deps: Seq<Seq<char>>, dep: Seq<char>)
    requires
        deps.no_duplicates(),
    ensures
        insert(deps, dep).no_duplicates(),
{
    if !deps.contains(dep) {
        let more = deps.push(dep);
        assert forall|i: int, j: int|
            0 <= i < more.len() && 0 <= j < more.len() && i != j implies more[i] != more[j] by {
            if i < deps.len() && j < deps.len() {
                assert(more[i] == deps[i] && more[j] == deps[j]);
            } else if i < deps.len() {
                assert(deps.contains(deps[i]));
            } else {
                assert(deps.contains(deps[j]));
            }
        }
    }
}

/// Adding the modules of imports leaves every specifier listed once.
pub proof fn lemma_import_deps_once(imports: Seq<ImportView>, k: nat, deps: Seq<Seq<char>>)
    requires
        deps.no_duplicates(),
    ensures
        import_deps(imports, k, deps).no_duplicates(),
    decreases k,
{
    if k > 0 {
        lemma_import_deps_once(imports, (k - 1) as nat, deps);
        lemma_insert_once(import_deps(imports, (k - 1) as nat, deps), imports[k - 1].module);
    }
}

/// Adding the modules that exports take from leaves every specifier listed
/// once.
pub proof fn lemma_export_deps_once(exports: Seq<ExportView>, k: nat, deps: Seq<Seq<char>>)
    requires
        deps.no_duplicates(),
    ensures
        export_deps(exports, k, deps).no_duplicates(),
    decreases k,
{
    if k > 0 {
        lemma_export_deps_once(exports, (k - 1) as nat, deps);
        let before = export_deps(exports, (k - 1) as nat, deps);
        match exports[k - 1] {
            ExportView::AllFrom(_, m) => {
                lemma_insert_once(before, m);
            },
            ExportView::NamedFrom(_, _, m) => {
                lemma_insert_once(before, m);
            },
            _ => {},
        }
    }
}

/// The scan of a module lists every specifier once.
pub proof fn lemma_scan_once(
    src: Src,
    allow_require: bool,
    c: Cursor,
    deps: Seq<Seq<char>>,
    imports: Seq<ImportView>,
    exports: Seq<ExportView>,
)
    requires
        deps.no_duplicates(),
    ensures
        scan(src, allow_require, c, deps, imports, exports) matches Ok(s) ==> s.deps.no_duplicates(),
    decreases left(src, c.pos),
{
    let t = src.toks[c.pos];
    if c.pos < 0 || c.pos >= src.toks.len() || t.tt == Tt::Eof {
    } else if t.tt == Tt::Export {
        match export(src, c.eat(src)) {
            Ok((x, c1)) => {
                lemma_scan_once(src, allow_require, onward(c1, c.pos), deps, imports, exports.push(x));
            },
            Err(_) => {},
        }
    } else if t.tt == Tt::Import {
        match import(src, c.eat(src)) {
            Ok((ParsedImportView::Import(i), c1)) => {
                lemma_scan_once(src, allow_require, onward(c1, c.pos), deps, imports.push(i), exports);
            },
            Ok((ParsedImportView::ImportMeta, c1)) => {
                lemma_scan_once(src, allow_require, onward(c1, c.pos), deps, imports, exports);
            },
            Err(_) => {},
        }
    } else if allow_require && is_id(t, "require"@) {
        let p = c.pos + 1;
        let out = c.out + t.ws_before;
        if src.toks[p].tt != Tt::Lparen {
            lemma_scan_once(
                src,
                allow_require,
                Cursor { pos: p, out: out + tokens_text(src, c.pos, p) },
                deps,
                imports,
                exports,
            );
        } else if !is_str_lit(src.toks[p + 1]) {
            lemma_scan_once(
                src,
                allow_require,
                Cursor { pos: p + 1, out: out + tokens_text(src, c.pos, p + 1) },
                deps,
                imports,
                exports,
            );
        } else if src.toks[p + 2].tt != Tt::Rparen {
            lemma_scan_once(
                src,
                allow_require,
                Cursor { pos: p + 2, out: out + tokens_text(src, c.pos, p + 2) },
                deps,
                imports,
                exports,
            );
        } else {
            match src.value_at(p + 1, c.pos) {
                Ok(dep) => {
                    lemma_insert_once(deps, dep);
                    lemma_scan_once(
                        src,
                        allow_require,
                        Cursor { pos: p + 3, out: out + tokens_text(src, c.pos, p + 3) },
                        insert(deps, dep),
                        imports,
                        exports,
                    );
                },
                Err(_) => {},
            }
        }
    } else {
        lemma_scan_once(src, allow_require, c.eat_whole(src), deps, imports, exports);
    }
}

/// A module in CommonJS form lists every module that it depends on once.
pub proof fn lemma_cjs_once(src: Src, allow_require: bool, c: Cursor)
    ensures
        cjs(src, allow_require, c) matches Ok(m) ==> m.deps.no_duplicates(),
{
    lemma_scan_once(src, allow_require, c, Seq::empty(), Seq::empty(), Seq::empty());
    match scan(src, allow_require, c, Seq::empty(), Seq::empty(), Seq::empty()) {
        Ok(s) => {
            lemma_import_deps_once(s.imports, s.imports.len(), s.deps);
            lemma_export_deps_once(
                s.exports,
                s.exports.len(),
                import_deps(s.imports, s.imports.len(), s.deps),
            );
        },
        Err(_) => {},
    }
}

} // verus!
