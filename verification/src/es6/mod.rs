//! Rewriting ECMAScript modules into a form that runs under a CommonJS shim.
//!
//! A module is scanned token by token. Import and export declarations are
//! taken out of the text, which keeps only their whitespace, so that every
//! line of the output is the line of the input with the same number. What
//! they declared is expressed again in a prefix and a suffix that wrap the
//! text in a function.

pub mod error;
pub mod export;
pub mod import;
pub mod lexer;
pub mod lines;
pub mod once;

use vstd::prelude::*;
use crate::es6::error::{Error, ErrorView};
use crate::es6::export::{export, parse_export, Export, ExportSpec, ExportSpecView, ExportView};
use crate::es6::import::{
    import,
    parse_import,
    Bindings,
    BindingsView,
    Import,
    ImportSpec,
    ImportSpecView,
    ImportView,
    ParsedImport,
    ParsedImportView,
};
use crate::es6::lexer::{is_id, is_str_lit, left, tokens_text, Cursor, Lexer, Src, Tt};
use crate::text::{chars_of, decimal, join, join_strings, push_decimal, str_eq};

verus! {

/// A module in CommonJS form.
#[derive(Debug)]
pub struct CjsModule {
    pub source_prefix: String,
    pub source: String,
    pub source_suffix: String,
    /// The specifiers of the modules that this one depends on, each once, in
    /// the order in which they were first met.
    pub deps: Vec<String>,
}

pub struct CjsModuleView {
    pub source_prefix: Seq<char>,
    pub source: Seq<char>,
    pub source_suffix: Seq<char>,
    pub deps: Seq<Seq<char>>,
}

impl View for CjsModule {
    type V = CjsModuleView;

    open spec fn view(&self) -> CjsModuleView {
        CjsModuleView {
            source_prefix: self.source_prefix@,
            source: self.source@,
            source_suffix: self.source_suffix@,
            deps: self.deps.deep_view(),
        }
    }
}

/// What scanning a module gathers: the text that stays, the modules asked
/// for with `require`, and the import and export declarations.
pub struct Scan {
    pub source: Seq<char>,
    pub deps: Seq<Seq<char>>,
    pub imports: Seq<ImportView>,
    pub exports: Seq<ExportView>,
}

/// `deps` with `dep` added, unless it is there already.
pub open spec fn insert(deps: Seq<Seq<char>>, dep: Seq<char>) -> Seq<Seq<char>> {
    if deps.contains(dep) {
        deps
    } else {
        deps.push(dep)
    }
}

/// Where a declaration that was read from `from` on leaves the cursor; it
/// never leaves it behind the token after `from`.
pub open spec fn onward(c: Cursor, from: int) -> Cursor {
    if c.pos > from {
        c
    } else {
        Cursor { pos: from + 1, out: c.out }
    }
}

/// The scan of the tokens from the cursor on, after what was gathered
/// before. Export and import declarations are read and dropped from the
/// text. Where `allow_require` is set, `require` followed by a string
/// literal in parentheses adds the literal's value to the dependencies and
/// is copied as it stands. Every other token is copied. The scan ends at the
/// end of file, whose leading whitespace is copied too.
pub open spec fn scan(
    src: Src,
    allow_require: bool,
    c: Cursor,
    deps: Seq<Seq<char>>,
    imports: Seq<ImportView>,
    exports: Seq<ExportView>,
) -> Result<Scan, ErrorView>
    decreases left(src, c.pos),
{
    let t = src.toks[c.pos];
    if c.pos < 0 || c.pos >= src.toks.len() || t.tt == Tt::Eof {
        Ok(Scan { source: c.out + t.ws_before, deps, imports, exports })
    } else if t.tt == Tt::Export {
        match export(src, c.eat(src)) {
            Ok((x, c1)) => scan(src, allow_require, onward(c1, c.pos), deps, imports, exports.push(x)),
            Err(e) => Err(e),
        }
    } else if t.tt == Tt::Import {
        match import(src, c.eat(src)) {
            Ok((ParsedImportView::Import(i), c1)) => scan(
                src,
                allow_require,
                onward(c1, c.pos),
                deps,
                imports.push(i),
                exports,
            ),
            Ok((ParsedImportView::ImportMeta, c1)) => scan(
                src,
                allow_require,
                onward(c1, c.pos),
                deps,
                imports,
                exports,
            ),
            Err(e) => Err(e),
        }
    } else if allow_require && is_id(t, "require"@) {
        let p = c.pos + 1;
        let out = c.out + t.ws_before;
        if src.toks[p].tt != Tt::Lparen {
            scan(
                src,
                allow_require,
                Cursor { pos: p, out: out + tokens_text(src, c.pos, p) },
                deps,
                imports,
                exports,
            )
        } else if !is_str_lit(src.toks[p + 1]) {
            scan(
                src,
                allow_require,
                Cursor { pos: p + 1, out: out + tokens_text(src, c.pos, p + 1) },
                deps,
                imports,
                exports,
            )
        } else if src.toks[p + 2].tt != Tt::Rparen {
            scan(
                src,
                allow_require,
                Cursor { pos: p + 2, out: out + tokens_text(src, c.pos, p + 2) },
                deps,
                imports,
                exports,
            )
        } else {
            match src.value_at(p + 1, c.pos) {
                Ok(dep) => scan(
                    src,
                    allow_require,
                    Cursor { pos: p + 3, out: out + tokens_text(src, c.pos, p + 3) },
                    insert(deps, dep),
                    imports,
                    exports,
                ),
                Err(e) => Err(e),
            }
        }
    } else {
        scan(src, allow_require, c.eat_whole(src), deps, imports, exports)
    }
}

/// The lines that load the first `k` imported modules.
pub open spec fn import_requires(imports: Seq<ImportView>, k: nat) -> Seq<char>
    decreases k,
{
    if k == 0 {
        Seq::empty()
    } else {
        import_requires(imports, (k - 1) as nat) + "\n  const __module"@ + decimal((k - 1) as nat)
            + " = require._esModule("@ + imports[k - 1].module_source + ")"@
    }
}

/// The properties for the first `k` names of a named import of the module
/// with number `id`.
pub open spec fn named_props(specs: Seq<ImportSpecView>, id: nat, k: nat) -> Seq<char>
    decreases k,
{
    if k == 0 {
        Seq::empty()
    } else {
        named_props(specs, id, (k - 1) as nat) + "\n    "@ + specs[k - 1].bind
            + ": {get() {return __module"@ + decimal(id) + "."@ + specs[k - 1].name
            + "}, enumerable: true},"@
    }
}

/// The property for a default binding.
pub open spec fn default_prop(bind: Option<Seq<char>>, id: nat) -> Seq<char> {
    match bind {
        Some(d) => "\n    "@ + d + ": {get() {return __module"@ + decimal(id)
            + ".default}, enumerable: true},"@,
        None => Seq::empty(),
    }
}

/// The properties for the bindings of the import with number `id`.
pub open spec fn import_props_of(i: ImportView, id: nat) -> Seq<char> {
    default_prop(i.default_bind, id) + match i.binds {
        BindingsView::Empty => Seq::empty(),
        BindingsView::NameSpace(w) => "\n    "@ + w + ": {value: __module"@ + decimal(id)
            + ", enumerable: true},"@,
        BindingsView::Named(specs) => named_props(specs, id, specs.len()),
    }
}

/// The properties for the bindings of the first `k` imports.
pub open spec fn import_props(imports: Seq<ImportView>, k: nat) -> Seq<char>
    decreases k,
{
    if k == 0 {
        Seq::empty()
    } else {
        import_props(imports, (k - 1) as nat) + import_props_of(imports[k - 1], (k - 1) as nat)
    }
}

/// The first `k` bindings of a named import.
pub open spec fn spec_names(specs: Seq<ImportSpecView>, k: nat) -> Seq<Seq<char>>
    decreases k,
{
    if k == 0 {
        Seq::empty()
    } else {
        spec_names(specs, (k - 1) as nat).push(specs[k - 1].bind)
    }
}

/// The default binding, if there is one.
pub open spec fn default_name(bind: Option<Seq<char>>) -> Seq<Seq<char>> {
    match bind {
        Some(d) => seq![d],
        None => Seq::empty(),
    }
}

/// The names that an import binds.
pub open spec fn names_of(i: ImportView) -> Seq<Seq<char>> {
    default_name(i.default_bind) + match i.binds {
        BindingsView::Empty => Seq::empty(),
        BindingsView::NameSpace(w) => seq![w],
        BindingsView::Named(specs) => spec_names(specs, specs.len()),
    }
}

/// The names that the first `k` imports bind.
pub open spec fn bound_names(imports: Seq<ImportView>, k: nat) -> Seq<Seq<char>>
    decreases k,
{
    if k == 0 {
        Seq::empty()
    } else {
        bound_names(imports, (k - 1) as nat) + names_of(imports[k - 1])
    }
}

/// The expression that fetches an imported name.
pub open spec fn call_of(name: Seq<char>) -> Seq<char> {
    "imports[\""@ + name + "\"]"@
}

/// The expressions that fetch the first `k` names.
pub open spec fn calls_of(names: Seq<Seq<char>>, k: nat) -> Seq<Seq<char>>
    decreases k,
{
    if k == 0 {
        Seq::empty()
    } else {
        calls_of(names, (k - 1) as nat).push(call_of(names[k - 1]))
    }
}

/// Whether one of the first `k` exports takes names from another module.
pub open spec fn has_named_from(exports: Seq<ExportView>, k: nat) -> bool
    decreases k,
{
    k > 0 && (has_named_from(exports, (k - 1) as nat) || exports[k - 1] is NamedFrom)
}

/// What the export with number `id` puts before the property list.
pub open spec fn export_head_of(exports: Seq<ExportView>, id: nat) -> Seq<char> {
    match exports[id as int] {
        ExportView::AllFrom(s, _) =>
            "Object.defineProperties(exports, Object.getOwnPropertyDescriptors(require._esModule("@
            + s + ")))\n"@,
        ExportView::NamedFrom(_, s, _) => (if has_named_from(exports, id) {
            Seq::empty()
        } else {
            "~function() {\n"@
        }) + "const __reexport"@ + decimal(id) + " = require._esModule("@ + s + ")\n"@,
        _ => Seq::empty(),
    }
}

/// What the first `k` exports put before the property list.
pub open spec fn export_heads(exports: Seq<ExportView>, k: nat) -> Seq<char>
    decreases k,
{
    if k == 0 {
        Seq::empty()
    } else {
        export_heads(exports, (k - 1) as nat) + export_head_of(exports, (k - 1) as nat)
    }
}

/// The properties for the first `k` names of a list of local exports.
pub open spec fn local_props(specs: Seq<ExportSpecView>, k: nat) -> Seq<char>
    decreases k,
{
    if k == 0 {
        Seq::empty()
    } else {
        local_props(specs, (k - 1) as nat) + "\n  "@ + specs[k - 1].name + ": {get() {return "@
            + specs[k - 1].bind + "}, enumerable: true},"@
    }
}

/// The properties for the first `k` names taken from the module of the
/// export with number `id`.
pub open spec fn reexport_props(specs: Seq<ExportSpecView>, id: nat, k: nat) -> Seq<char>
    decreases k,
{
    if k == 0 {
        Seq::empty()
    } else {
        reexport_props(specs, id, (k - 1) as nat) + "\n  "@ + specs[k - 1].name
            + ": {get() {return __reexport"@ + decimal(id) + "."@ + specs[k - 1].bind
            + "}, enumerable: true},"@
    }
}

/// The properties of the export with number `id`.
pub open spec fn export_props_of(x: ExportView, id: nat) -> Seq<char> {
    match x {
        ExportView::Default(b) => "\n  default: {get() {return "@ + b + "}, enumerable: true},"@,
        ExportView::Named(specs) => local_props(specs, specs.len()),
        ExportView::AllFrom(_, _) => Seq::empty(),
        ExportView::NamedFrom(specs, _, _) => reexport_props(specs, id, specs.len()),
    }
}

/// The properties of the first `k` exports.
pub open spec fn export_props(exports: Seq<ExportView>, k: nat) -> Seq<char>
    decreases k,
{
    if k == 0 {
        Seq::empty()
    } else {
        export_props(exports, (k - 1) as nat) + export_props_of(exports[k - 1], (k - 1) as nat)
    }
}

/// The dependencies after the modules of the first `k` imports were added.
pub open spec fn import_deps(imports: Seq<ImportView>, k: nat, deps: Seq<Seq<char>>) -> Seq<
    Seq<char>,
>
    decreases k,
{
    if k == 0 {
        deps
    } else {
        insert(import_deps(imports, (k - 1) as nat, deps), imports[k - 1].module)
    }
}

/// The dependencies after the modules that the first `k` exports take from
/// were added.
pub open spec fn export_deps(exports: Seq<ExportView>, k: nat, deps: Seq<Seq<char>>) -> Seq<
    Seq<char>,
>
    decreases k,
{
    if k == 0 {
        deps
    } else {
        let before = export_deps(exports, (k - 1) as nat, deps);
        match exports[k - 1] {
            ExportView::AllFrom(_, m) => insert(before, m),
            ExportView::NamedFrom(_, _, m) => insert(before, m),
            _ => before,
        }
    }
}

/// Whether the file counts as an ECMAScript module: it is read as one
/// without `require`, or holds an import or export declaration.
pub open spec fn is_module(allow_require: bool, s: Scan) -> bool {
    !allow_require || s.exports.len() > 0 || s.imports.len() > 0
}

/// The statement that makes the object of imported names.
pub open spec fn imports_object(imports: Seq<ImportView>) -> Seq<char> {
    if imports.len() > 0 {
        "var imports = (function() {"@ + import_requires(imports, imports.len())
            + "\n  return Object.create(null, {\n    [Symbol.toStringTag]: {value: 'ModuleImports'},"@
            + import_props(imports, imports.len()) + "\n  })\n}()); "@
    } else {
        Seq::empty()
    }
}

/// The statements that define the exports.
pub open spec fn exports_block(exports: Seq<ExportView>) -> Seq<char> {
    if exports.len() > 0 {
        export_heads(exports, exports.len()) + "Object.defineProperties(exports, {"@
            + export_props(exports, exports.len()) + "\n});\n"@ + (if has_named_from(
            exports,
            exports.len(),
        ) {
            "}();\n"@
        } else {
            Seq::empty()
        })
    } else {
        Seq::empty()
    }
}

/// The prefix: the module marker, the object of imported names, the head of
/// the function that takes them as parameters, and the exports.
pub open spec fn prefix_of(allow_require: bool, s: Scan) -> Seq<char> {
    (if is_module(allow_require, s) {
        "Object.defineProperty(exports, '__esModule', {value: true})\n"@
    } else {
        Seq::empty()
    }) + imports_object(s.imports) + "; ~function("@ + join(
        bound_names(s.imports, s.imports.len()),
        ", "@,
    ) + ") {"@ + (if is_module(allow_require, s) {
        "\n'use strict';\n"@
    } else {
        Seq::empty()
    }) + exports_block(s.exports)
}

/// The suffix: the end of the function, and the call that hands it the
/// imported names.
pub open spec fn suffix_of(s: Scan) -> Seq<char> {
    let names = bound_names(s.imports, s.imports.len());
    "}("@ + join(calls_of(names, names.len()), ", "@) + ")"@
}

/// The module in CommonJS form that a scan comes to.
pub open spec fn cjs_of(allow_require: bool, s: Scan) -> CjsModuleView {
    CjsModuleView {
        source_prefix: prefix_of(allow_require, s),
        source: s.source,
        source_suffix: suffix_of(s),
        deps: export_deps(
            s.exports,
            s.exports.len(),
            import_deps(s.imports, s.imports.len(), s.deps),
        ),
    }
}

/// The module in CommonJS form of the tokens from the cursor on.
pub open spec fn cjs(src: Src, allow_require: bool, c: Cursor) -> Result<CjsModuleView, ErrorView> {
    match scan(src, allow_require, c, Seq::empty(), Seq::empty(), Seq::empty()) {
        Ok(s) => Ok(cjs_of(allow_require, s)),
        Err(e) => Err(e),
    }
}

/// The names that the imports of a module bind, and for each the expression
/// that fetches it.
pub struct ImportBindingNames {
    pub names: Vec<String>,
    pub calls: Vec<String>,
}

impl ImportBindingNames {
    /// There is one call for each name.
    pub open spec fn wf(&self) -> bool {
        self.calls.deep_view() == calls_of(self.names.deep_view(), self.names@.len() as nat)
    }

    /// No names.
    pub fn new() -> (b: ImportBindingNames)
        ensures
            b.wf(),
            b.names.deep_view() == Seq::<Seq<char>>::empty(),
    {
        let b = ImportBindingNames { names: Vec::new(), calls: Vec::new() };
        assert(b.names.deep_view() =~= Seq::<Seq<char>>::empty());
        assert(b.calls.deep_view() =~= Seq::<Seq<char>>::empty());
        b
    }

    /// Adds a name.
    pub fn add(&mut self, binding: String)
        requires
            old(self).wf(),
        ensures
            final(self).wf(),
            final(self).names.deep_view() == old(self).names.deep_view().push(binding@),
    {
        let mut call = String::new();
        call.append("imports[\"");
        call.append(binding.as_str());
        call.append("\"]");
        assert(call@ =~= call_of(binding@));
        let ghost names = self.names.deep_view();
        let ghost calls = self.calls.deep_view();
        self.calls.push(call);
        self.names.push(binding);
        assert(self.names.deep_view() =~= names.push(binding@));
        assert(self.calls.deep_view() =~= calls.push(call_of(binding@)));
        proof {
            lemma_calls_prefix(names, self.names.deep_view(), names.len());
        }
    }

    /// The names as a parameter list.
    pub fn get_signature_params(&self) -> (s: String)
        ensures
            s@ == join(self.names.deep_view(), ", "@),
    {
        join_strings(&self.names, ", ")
    }

    /// The fetching expressions as an argument list.
    pub fn get_call_params(&self) -> (s: String)
        ensures
            s@ == join(self.calls.deep_view(), ", "@),
    {
        join_strings(&self.calls, ", ")
    }
}

/// The calls for the first `k` names depend on those names alone.
pub proof fn lemma_calls_prefix(a: Seq<Seq<char>>, b: Seq<Seq<char>>, k: nat)
    requires
        k <= a.len(),
        k <= b.len(),
        forall|i: int| 0 <= i < k ==> a[i] == b[i],
    ensures
        calls_of(a, k) == calls_of(b, k),
    decreases k,
{
    if k > 0 {
        lemma_calls_prefix(a, b, (k - 1) as nat);
    }
}

/// Adds `dep` to `deps` unless it is there already.
pub fn insert_dep(deps: &mut Vec<String>, dep: String)
    ensures
        final(deps).deep_view() == insert(old(deps).deep_view(), dep@),
{
    let ghost before = deps.deep_view();
    let mut i: usize = 0;
    while i < deps.len()
        invariant
            i <= deps@.len(),
            deps.deep_view() == before,
            before == old(deps).deep_view(),
            before.len() == deps@.len(),
            forall|k: int| 0 <= k < i ==> before[k] != dep@,
        decreases deps@.len() - i,
    {
        assert(before[i as int] == deps@[i as int]@);
        if str_eq(deps[i].as_str(), dep.as_str()) {
            assert(before.contains(dep@));
            return ;
        }
        i += 1;
    }
    assert(!before.contains(dep@));
    deps.push(dep);
    assert(deps.deep_view() =~= before.push(dep@));
}

/// What scanning a module gathered.
pub struct Scanned {
    pub source: String,
    pub deps: Vec<String>,
    pub imports: Vec<Import>,
    pub exports: Vec<Export>,
}

impl View for Scanned {
    type V = Scan;

    open spec fn view(&self) -> Scan {
        Scan {
            source: self.source@,
            deps: self.deps.deep_view(),
            imports: self.imports.deep_view(),
            exports: self.exports.deep_view(),
        }
    }
}

/// Scans the tokens from the current one to the end of file.
pub fn scan_tokens(lex: &mut Lexer, allow_require: bool) -> (r: Result<Scanned, Error>)
    requires
        old(lex).wf(),
    ensures
        final(lex).wf(),
        final(lex).src() == old(lex).src(),
        r is Ok ==> final(lex).pos + 1 == final(lex).tokens().len(),
        match scan(
            old(lex).src(),
            allow_require,
            old(lex).cursor(Seq::empty()),
            Seq::empty(),
            Seq::empty(),
            Seq::empty(),
        ) {
            Ok(s) => r matches Ok(v) && v@ == s,
            Err(e) => r matches Err(x) && x@ == e,
        },
{
    let mut source = String::new();
    let mut deps: Vec<String> = Vec::new();
    let mut imports: Vec<Import> = Vec::new();
    let mut exports: Vec<Export> = Vec::new();
    let ghost src = lex.src();
    let ghost goal = scan(
        src,
        allow_require,
        lex.cursor(Seq::empty()),
        Seq::empty(),
        Seq::empty(),
        Seq::empty(),
    );
    assert(deps.deep_view() =~= Seq::empty());
    assert(imports.deep_view() =~= Seq::empty());
    assert(exports.deep_view() =~= Seq::empty());
    loop
        invariant
            lex.wf(),
            lex.src() == src,
            src == old(lex).src(),
            goal == scan(
                old(lex).src(),
                allow_require,
                old(lex).cursor(Seq::empty()),
                Seq::empty(),
                Seq::empty(),
                Seq::empty(),
            ),
            scan(
                src,
                allow_require,
                lex.cursor(source@),
                deps.deep_view(),
                imports.deep_view(),
                exports.deep_view(),
            ) == goal,
        decreases lex.toks@.len() - lex.pos,
    {
        let ghost xs = exports.deep_view();
        let ghost is = imports.deep_view();
        let start = lex.pos;
        proof {
            lex.lemma_eof_is_last(lex.pos as int);
        }
        match lex.tt() {
            Tt::Eof => {
                source.append(lex.here().ws_before.as_str());
                return Ok(Scanned { source, deps, imports, exports });
            },
            Tt::Export => {
                lex.eat(&mut source);
                match parse_export(lex, &mut source) {
                    Ok(x) => {
                        exports.push(x);
                        assert(exports.deep_view() =~= xs.push(x@));
                    },
                    Err(e) => {
                        return Err(e);
                    },
                }
            },
            Tt::Import => {
                lex.eat(&mut source);
                match parse_import(lex, &mut source) {
                    Ok(ParsedImport::Import(i)) => {
                        imports.push(i);
                        assert(imports.deep_view() =~= is.push(i@));
                    },
                    Ok(ParsedImport::ImportMeta) => {},
                    Err(e) => {
                        return Err(e);
                    },
                }
            },
            _ => {
                if allow_require && lex.at_word("require") {
                    lex.eat(&mut source);
                    match lex.tt() {
                        Tt::Lparen => {
                            lex.skip();
                            match lex.tt() {
                                Tt::StrLitSgl | Tt::StrLitDbl => {
                                    let lit = lex.pos;
                                    lex.skip();
                                    match lex.tt() {
                                        Tt::Rparen => {
                                            lex.skip();
                                            match lex.str_value(lit, start) {
                                                Ok(dep) => {
                                                    insert_dep(&mut deps, dep);
                                                },
                                                Err(e) => {
                                                    return Err(e);
                                                },
                                            }
                                        },
                                        _ => {},
                                    }
                                },
                                _ => {},
                            }
                        },
                        _ => {},
                    }
                    lex.push_text(start, &mut source);
                } else {
                    lex.eat_whole(&mut source);
                }
            },
        }
    }
}

fn push_import_requires(out: &mut String, imports: &Vec<Import>)
    ensures
        final(out)@ == old(out)@ + import_requires(imports.deep_view(), imports@.len() as nat),
{
    let mut i: usize = 0;
    assert(old(out)@ + import_requires(imports.deep_view(), 0) =~= old(out)@);
    while i < imports.len()
        invariant
            i <= imports@.len(),
            out@ == old(out)@ + import_requires(imports.deep_view(), i as nat),
        decreases imports@.len() - i,
    {
        assert(imports.deep_view()[i as int] == imports@[i as int]@);
        out.append("\n  const __module");
        push_decimal(out, i);
        out.append(" = require._esModule(");
        out.append(imports[i].module_source.as_str());
        out.append(")");
        i += 1;
        assert(out@ =~= old(out)@ + import_requires(imports.deep_view(), i as nat));
    }
}

fn push_named_props(
    out: &mut String,
    specs: &Vec<ImportSpec>,
    id: usize,
    names: &mut ImportBindingNames,
)
    requires
        old(names).wf(),
    ensures
        final(names).wf(),
        final(out)@ == old(out)@ + named_props(specs.deep_view(), id as nat, specs@.len() as nat),
        final(names).names.deep_view() == old(names).names.deep_view() + spec_names(
            specs.deep_view(),
            specs@.len() as nat,
        ),
{
    let mut j: usize = 0;
    assert(old(out)@ + named_props(specs.deep_view(), id as nat, 0) =~= old(out)@);
    assert(old(names).names.deep_view() + spec_names(specs.deep_view(), 0) =~= old(
        names,
    ).names.deep_view());
    while j < specs.len()
        invariant
            j <= specs@.len(),
            names.wf(),
            out@ == old(out)@ + named_props(specs.deep_view(), id as nat, j as nat),
            names.names.deep_view() == old(names).names.deep_view() + spec_names(
                specs.deep_view(),
                j as nat,
            ),
        decreases specs@.len() - j,
    {
        assert(specs.deep_view()[j as int] == specs@[j as int]@);
        out.append("\n    ");
        out.append(specs[j].bind.as_str());
        out.append(": {get() {return __module");
        push_decimal(out, id);
        out.append(".");
        out.append(specs[j].name.as_str());
        out.append("}, enumerable: true},");
        names.add(specs[j].bind.clone());
        j += 1;
        assert(out@ =~= old(out)@ + named_props(specs.deep_view(), id as nat, j as nat));
        assert(names.names.deep_view() =~= old(names).names.deep_view() + spec_names(
            specs.deep_view(),
            j as nat,
        ));
    }
}

fn push_import_props_of(out: &mut String, import: &Import, id: usize, names: &mut ImportBindingNames)
    requires
        old(names).wf(),
    ensures
        final(names).wf(),
        final(out)@ == old(out)@ + import_props_of(import@, id as nat),
        final(names).names.deep_view() == old(names).names.deep_view() + names_of(import@),
{
    match &import.default_bind {
        Some(d) => {
            out.append("\n    ");
            out.append(d.as_str());
            out.append(": {get() {return __module");
            push_decimal(out, id);
            out.append(".default}, enumerable: true},");
            names.add(d.clone());
            assert(out@ =~= old(out)@ + default_prop(import@.default_bind, id as nat));
            assert(names.names.deep_view() =~= old(names).names.deep_view() + default_name(
                import@.default_bind,
            ));
        },
        None => {
            assert(out@ =~= old(out)@ + default_prop(import@.default_bind, id as nat));
            assert(names.names.deep_view() =~= old(names).names.deep_view() + default_name(
                import@.default_bind,
            ));
        },
    }
    match &import.binds {
        Bindings::Empty => {
            assert(out@ =~= old(out)@ + import_props_of(import@, id as nat));
            assert(names.names.deep_view() =~= old(names).names.deep_view() + names_of(import@));
        },
        Bindings::NameSpace(w) => {
            out.append("\n    ");
            out.append(w.as_str());
            out.append(": {value: __module");
            push_decimal(out, id);
            out.append(", enumerable: true},");
            names.add(w.clone());
            assert(out@ =~= old(out)@ + import_props_of(import@, id as nat));
            assert(names.names.deep_view() =~= old(names).names.deep_view() + names_of(import@));
        },
        Bindings::Named(specs) => {
            push_named_props(out, specs, id, names);
            assert(out@ =~= old(out)@ + import_props_of(import@, id as nat));
            assert(names.names.deep_view() =~= old(names).names.deep_view() + names_of(import@));
        },
    }
}

fn push_import_props(out: &mut String, imports: &Vec<Import>, names: &mut ImportBindingNames)
    requires
        old(names).wf(),
        old(names).names.deep_view() == Seq::<Seq<char>>::empty(),
    ensures
        final(names).wf(),
        final(out)@ == old(out)@ + import_props(imports.deep_view(), imports@.len() as nat),
        final(names).names.deep_view() == bound_names(imports.deep_view(), imports@.len() as nat),
{
    let mut i: usize = 0;
    assert(old(out)@ + import_props(imports.deep_view(), 0) =~= old(out)@);
    while i < imports.len()
        invariant
            i <= imports@.len(),
            names.wf(),
            out@ == old(out)@ + import_props(imports.deep_view(), i as nat),
            names.names.deep_view() == bound_names(imports.deep_view(), i as nat),
        decreases imports@.len() - i,
    {
        assert(imports.deep_view()[i as int] == imports@[i as int]@);
        push_import_props_of(out, &imports[i], i, names);
        i += 1;
        assert(out@ =~= old(out)@ + import_props(imports.deep_view(), i as nat));
    }
}

fn push_export_heads(out: &mut String, exports: &Vec<Export>) -> (had_binds: bool)
    ensures
        final(out)@ == old(out)@ + export_heads(exports.deep_view(), exports@.len() as nat),
        had_binds == has_named_from(exports.deep_view(), exports@.len() as nat),
{
    let mut had_binds = false;
    let mut i: usize = 0;
    assert(old(out)@ + export_heads(exports.deep_view(), 0) =~= old(out)@);
    while i < exports.len()
        invariant
            i <= exports@.len(),
            out@ == old(out)@ + export_heads(exports.deep_view(), i as nat),
            had_binds == has_named_from(exports.deep_view(), i as nat),
        decreases exports@.len() - i,
    {
        assert(exports.deep_view()[i as int] == exports@[i as int]@);
        match &exports[i] {
            Export::AllFrom(name_source, _) => {
                out.append(
                    "Object.defineProperties(exports, Object.getOwnPropertyDescriptors(require._esModule(",
                );
                out.append(name_source.as_str());
                out.append(")))\n");
            },
            Export::NamedFrom(_, name_source, _) => {
                if !had_binds {
                    out.append("~function() {\n");
                    had_binds = true;
                }
                out.append("const __reexport");
                push_decimal(out, i);
                out.append(" = require._esModule(");
                out.append(name_source.as_str());
                out.append(")\n");
            },
            _ => {},
        }
        i += 1;
        assert(out@ =~= old(out)@ + export_heads(exports.deep_view(), i as nat));
    }
    had_binds
}

fn push_local_props(out: &mut String, specs: &Vec<ExportSpec>)
    ensures
        final(out)@ == old(out)@ + local_props(specs.deep_view(), specs@.len() as nat),
{
    let mut j: usize = 0;
    assert(old(out)@ + local_props(specs.deep_view(), 0) =~= old(out)@);
    while j < specs.len()
        invariant
            j <= specs@.len(),
            out@ == old(out)@ + local_props(specs.deep_view(), j as nat),
        decreases specs@.len() - j,
    {
        assert(specs.deep_view()[j as int] == specs@[j as int]@);
        out.append("\n  ");
        out.append(specs[j].name.as_str());
        out.append(": {get() {return ");
        out.append(specs[j].bind.as_str());
        out.append("}, enumerable: true},");
        j += 1;
        assert(out@ =~= old(out)@ + local_props(specs.deep_view(), j as nat));
    }
}

fn push_reexport_props(out: &mut String, specs: &Vec<ExportSpec>, id: usize)
    ensures
        final(out)@ == old(out)@ + reexport_props(specs.deep_view(), id as nat, specs@.len() as nat),
{
    let mut j: usize = 0;
    assert(old(out)@ + reexport_props(specs.deep_view(), id as nat, 0) =~= old(out)@);
    while j < specs.len()
        invariant
            j <= specs@.len(),
            out@ == old(out)@ + reexport_props(specs.deep_view(), id as nat, j as nat),
        decreases specs@.len() - j,
    {
        assert(specs.deep_view()[j as int] == specs@[j as int]@);
        out.append("\n  ");
        out.append(specs[j].name.as_str());
        out.append(": {get() {return __reexport");
        push_decimal(out, id);
        out.append(".");
        out.append(specs[j].bind.as_str());
        out.append("}, enumerable: true},");
        j += 1;
        assert(out@ =~= old(out)@ + reexport_props(specs.deep_view(), id as nat, j as nat));
    }
}

fn push_export_props(out: &mut String, exports: &Vec<Export>)
    ensures
        final(out)@ == old(out)@ + export_props(exports.deep_view(), exports@.len() as nat),
{
    let mut i: usize = 0;
    assert(old(out)@ + export_props(exports.deep_view(), 0) =~= old(out)@);
    while i < exports.len()
        invariant
            i <= exports@.len(),
            out@ == old(out)@ + export_props(exports.deep_view(), i as nat),
        decreases exports@.len() - i,
    {
        assert(exports.deep_view()[i as int] == exports@[i as int]@);
        let ghost before = out@;
        match &exports[i] {
            Export::Default(default_binding) => {
                out.append("\n  default: {get() {return ");
                out.append(default_binding.as_str());
                out.append("}, enumerable: true},");
            },
            Export::Named(specs) => {
                push_local_props(out, specs);
            },
            Export::AllFrom(_, _) => {},
            Export::NamedFrom(specs, _, _) => {
                push_reexport_props(out, specs, i);
            },
        }
        assert(out@ =~= before + export_props_of(exports.deep_view()[i as int], i as nat));
        i += 1;
        assert(out@ =~= old(out)@ + export_props(exports.deep_view(), i as nat));
    }
}

fn add_import_deps(deps: &mut Vec<String>, imports: &Vec<Import>)
    ensures
        final(deps).deep_view() == import_deps(
            imports.deep_view(),
            imports@.len() as nat,
            old(deps).deep_view(),
        ),
{
    let mut i: usize = 0;
    while i < imports.len()
        invariant
            i <= imports@.len(),
            deps.deep_view() == import_deps(imports.deep_view(), i as nat, old(deps).deep_view()),
        decreases imports@.len() - i,
    {
        assert(imports.deep_view()[i as int] == imports@[i as int]@);
        insert_dep(deps, imports[i].module.clone());
        i += 1;
    }
}

fn add_export_deps(deps: &mut Vec<String>, exports: &Vec<Export>)
    ensures
        final(deps).deep_view() == export_deps(
            exports.deep_view(),
            exports@.len() as nat,
            old(deps).deep_view(),
        ),
{
    let mut i: usize = 0;
    while i < exports.len()
        invariant
            i <= exports@.len(),
            deps.deep_view() == export_deps(exports.deep_view(), i as nat, old(deps).deep_view()),
        decreases exports@.len() - i,
    {
        assert(exports.deep_view()[i as int] == exports@[i as int]@);
        match &exports[i] {
            Export::AllFrom(_, name) => {
                insert_dep(deps, name.clone());
            },
            Export::NamedFrom(_, _, name) => {
                insert_dep(deps, name.clone());
            },
            _ => {},
        }
        i += 1;
    }
}

/// The module in CommonJS form that a scan comes to.
pub fn to_cjs(allow_require: bool, scanned: Scanned) -> (m: CjsModule)
    ensures
        m@ == cjs_of(allow_require, scanned@),
{
    let Scanned { source, deps, imports, exports } = scanned;
    let mut deps = deps;
    let ghost s = scanned@;
    let is_module = !allow_require || exports.len() > 0 || imports.len() > 0;
    let mut prefix = String::new();
    if is_module {
        prefix.append("Object.defineProperty(exports, '__esModule', {value: true})\n");
    }
    let mut import_bindings = ImportBindingNames::new();
    let ghost marked = prefix@;
    if imports.len() > 0 {
        prefix.append("var imports = (function() {");
        push_import_requires(&mut prefix, &imports);
        prefix.append(
            "\n  return Object.create(null, {\n    [Symbol.toStringTag]: {value: 'ModuleImports'},",
        );
        push_import_props(&mut prefix, &imports, &mut import_bindings);
        prefix.append("\n  })\n}()); ");
        assert(prefix@ =~= marked + imports_object(s.imports));
    } else {
        assert(prefix@ =~= marked + imports_object(s.imports));
        assert(s.imports.len() == 0);
    }
    assert(import_bindings.names.deep_view() == bound_names(s.imports, s.imports.len()));
    prefix.append("; ~function(");
    prefix.append(import_bindings.get_signature_params().as_str());
    prefix.append(") {");
    if is_module {
        prefix.append("\n'use strict';\n");
    }
    let ghost headed = prefix@;
    if exports.len() > 0 {
        let had_binds = push_export_heads(&mut prefix, &exports);
        prefix.append("Object.defineProperties(exports, {");
        push_export_props(&mut prefix, &exports);
        prefix.append("\n});\n");
        if had_binds {
            prefix.append("}();\n");
        }
        assert(prefix@ =~= headed + exports_block(s.exports));
    } else {
        assert(prefix@ =~= headed + exports_block(s.exports));
    }
    assert(prefix@ =~= prefix_of(allow_require, s));
    add_import_deps(&mut deps, &imports);
    add_export_deps(&mut deps, &exports);
    let mut suffix = String::new();
    suffix.append("}(");
    suffix.append(import_bindings.get_call_params().as_str());
    suffix.append(")");
    assert(suffix@ =~= suffix_of(s));
    CjsModule { source_prefix: prefix, source, source_suffix: suffix, deps }
}

/// Rewrites the module that `lex` stands at the start of. With
/// `allow_require` set, calls of `require` are dependencies too, and a file
/// without import and export declarations is left as a script.
pub fn module_to_cjs(lex: &mut Lexer, allow_require: bool) -> (r: Result<CjsModule, Error>)
    requires
        old(lex).wf(),
    ensures
        final(lex).wf(),
        final(lex).src() == old(lex).src(),
        r is Ok ==> final(lex).pos + 1 == final(lex).tokens().len(),
        match cjs(old(lex).src(), allow_require, old(lex).cursor(Seq::empty())) {
            Ok(m) => r matches Ok(v) && v@ == m,
            Err(e) => r matches Err(x) && x@ == e,
        },
{
    match scan_tokens(lex, allow_require) {
        Ok(scanned) => Ok(to_cjs(allow_require, scanned)),
        Err(e) => Err(e),
    }
}

} // verus!
