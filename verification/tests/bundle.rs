use pax::bundler::Bundler;
use pax::es6::lexer::Lexer;
use pax::modules::{Dep, Module, ModuleInfo, ModuleState, Source};
use pax::resolver::Resolved;
use pax::source_maps::SourceMapOutput;
use pax::worker::{
    cjs_parse_deps, comment_hashbang, include_module, module_text, Work, WorkDone,
};
use pax::path_ext::text_before;
use pax::writer::{
    body_needs_newline, js_path, name_path, sort_deps, stringify_deps, Bundled, Writer,
};
use pax::{count_lines, to_quoted_json_string, CliError};

fn source(prefix: &str, body: &str, suffix: &str) -> Source {
    Source { prefix: prefix.to_owned(), body: body.to_owned(), suffix: suffix.to_owned(), original: None }
}

fn module(file: &str, prefix: &str, body: &str, suffix: &str, deps: Vec<(&str, Resolved)>) -> Bundled {
    Bundled {
        file: file.to_owned(),
        module: Module {
            source: source(prefix, body, suffix),
            deps: deps
                .into_iter()
                .map(|(name, resolved)| Dep { name: name.to_owned(), resolved })
                .collect(),
        },
    }
}

fn writer(modules: Vec<Bundled>, map_output: SourceMapOutput) -> Writer {
    Writer {
        head: "head line 1\nhead line 2".to_owned(),
        tail: "tail line\n".to_owned(),
        modules,
        entry_point: "/work/app/index.js".to_owned(),
        map_output,
    }
}

fn two_modules() -> Vec<Bundled> {
    vec![
        module(
            "math.js",
            "",
            "module.exports = 2;\n",
            "",
            vec![],
        ),
        module(
            "index.js",
            "",
            "module.exports = require('./math')",
            "",
            vec![
                ("./math", Resolved::Normal("/work/app/math.js".to_owned())),
                ("fs", Resolved::External),
                ("gone", Resolved::Ignore),
            ],
        ),
    ]
}

#[test]
fn names_escape_all_but_letters_digits_and_underscore() {
    assert_eq!(name_path("index.js"), "file_index$2ejs");
    assert_eq!(name_path("a_b/C9.mjs"), "file_a_b$2fC9$2emjs");
    assert_eq!(name_path(""), "file_");
    assert_eq!(name_path("é"), "file_$c3$a9");
    assert_eq!(name_path("$ \n"), "file_$24$20$0a");
    assert_eq!(js_path("a\"b"), "\"a\\\"b\"");
}

#[test]
fn deps_object_lists_what_shows() {
    let m = two_modules().pop().unwrap();
    assert_eq!(
        stringify_deps(&m.module.deps, "/work/app/index.js"),
        "{\"./math\":file_math$2ejs,\"gone\":Shim.ignored}"
    );
    assert_eq!(stringify_deps(&Vec::new(), "/work/app/index.js"), "{}");
    let outside = vec![Dep {
        name: "up".to_owned(),
        resolved: Resolved::Normal("/other/up.js".to_owned()),
    }];
    assert_eq!(
        stringify_deps(&outside, "/work/app/index.js"),
        "{\"up\":file_$2fother$2fup$2ejs}"
    );
}

#[test]
fn body_needs_a_line_feed_unless_it_ends_a_line() {
    assert!(!body_needs_newline(""));
    assert!(body_needs_newline("x"));
    assert!(!body_needs_newline("x\n"));
    assert!(!body_needs_newline("x\r"));
    assert!(!body_needs_newline("x\u{2028}"));
    assert!(!body_needs_newline("x\u{2029}"));
    assert!(body_needs_newline("x\n "));
}

#[test]
fn bundle_holds_modules_in_the_order_of_their_paths() {
    let w = writer(two_modules(), SourceMapOutput::Suppressed);
    let mut out = String::new();
    assert!(w.write_to(&mut out));
    let expected = "head line 1\nhead line 2\
\n  Shim.files[\"index.js\"] = file_index$2ejs; file_index$2ejs.deps = {\"./math\":file_math$2ejs,\"gone\":Shim.ignored}; file_index$2ejs.filename = \"index.js\"; function file_index$2ejs(module, exports, require, __filename, __dirname, __import_meta) {\n\
module.exports = require('./math')\n\
}\
\n  Shim.files[\"math.js\"] = file_math$2ejs; file_math$2ejs.deps = {}; file_math$2ejs.filename = \"math.js\"; function file_math$2ejs(module, exports, require, __filename, __dirname, __import_meta) {\n\
module.exports = 2;\n\
}\
\n  Shim.main = file_index$2ejs; Shim.makeRequire(null)()\n  if (typeof module !== 'undefined') module.exports = Shim.main.module && Shim.main.module.exports\n\
tail line\n";
    assert_eq!(out, expected);
    assert_eq!(w.sorted_modules(), vec![1, 0]);
}

#[test]
fn mappings_hold_one_semicolon_for_every_line_feed_of_the_bundle() {
    let modules = vec![
        module("b.js", "p1\np2", "one\ntwo\nthree", "}(a,\nb)", vec![]),
        module("a.js", "", "single", "", vec![]),
        module("c/d.js", "pre", "", "", vec![]),
        module("c.js", "", "x\n\n", "s", vec![]),
    ];
    let w = writer(modules, SourceMapOutput::Suppressed);
    let mut bundle = String::new();
    w.write_bundle_to(&mut bundle);
    let mut mappings = String::new();
    w.write_mappings_to(&mut mappings);
    let semis = mappings.chars().filter(|c| *c == ';').count();
    let feeds = bundle.chars().filter(|c| *c == '\n').count();
    assert_eq!(semis, feeds);
    assert_eq!(count_lines(&bundle), semis + 1);
    // the head; a.js, the first module; b.js with a prefix of two lines, a body of three and
    // a suffix of two; c/d.js, which comes before c.js, with an empty body; c.js; the tail
    assert_eq!(
        mappings,
        ";;\
;AAAA;;\
;;;ACAA;AACA;AACA;;;\
;;ACFA;\
;ACAA;AACA;AACA;\
;;;"
    );
    assert_eq!(w.sorted_modules(), vec![1, 0, 2, 3]);
    // lines(head) + sum(1 + prefix + body + line feed + suffix - 1) + 2 + lines(tail)
    assert_eq!(
        count_lines(&bundle),
        2 + (1 + 0 + 1 + 1 + 0) + (1 + 2 + 3 + 1 + 1) + (1 + 1 + 1 + 0 + 0) + (1 + 0 + 3 + 0 + 0) + 2 + 2
    );
}

#[test]
fn source_map_names_the_sources() {
    let mut modules = two_modules();
    modules[1].module.source.original = Some("the \"original\"\n".to_owned());
    let w = writer(modules, SourceMapOutput::Suppressed);
    let mut map = String::new();
    w.write_map_to(&mut map);
    assert_eq!(
        map,
        "{\"version\":3,\"file\":\"\",\"sourceRoot\":\"\",\"sources\":[\"index.js\",\"math.js\"],\
\"sourcesContent\":[\"the \\\"original\\\"\\n\",\"module.exports = 2;\\n\"],\"names\":[],\
\"mappings\":\";;;AAAA;;;ACAA;AACA;;;;\"}"
    );
}

#[test]
fn map_comment_goes_by_the_mode() {
    let mut out = String::new();
    let w = writer(
        two_modules(),
        SourceMapOutput::File("/out/maps/bundle.js.map".to_owned(), "/out/bundle.js".to_owned()),
    );
    assert!(w.write_to(&mut out));
    assert!(out.ends_with("tail line\n//# sourceMappingURL=maps/bundle.js.map\n"));

    let mut out = String::new();
    let w = writer(two_modules(), SourceMapOutput::Inline);
    assert!(w.write_to(&mut out));
    let mut map = String::new();
    w.write_map_to(&mut map);
    let marker = "//# sourceMappingURL=data:application/json;charset=utf-8;base64,";
    let at = out.find(marker).unwrap();
    let data = &out[at + marker.len()..out.len() - 1];
    assert!(out.ends_with('\n'));
    assert_ne!(data.as_bytes(), map.as_bytes());
    assert_eq!(data.len(), (map.len() + 2) / 3 * 4);
    assert!(data.starts_with("eyJ2ZXJzaW9uIjoz"));
    assert_eq!(data, base64::Engine::encode(&base64::engine::general_purpose::STANDARD, map.as_bytes()));
    assert!(data.bytes().all(|b| b.is_ascii_alphanumeric() || b == b'+' || b == b'/' || b == b'='));
}

#[test]
fn json_string_literals_escape_what_json_asks_for() {
    assert_eq!(to_quoted_json_string(""), "\"\"");
    assert_eq!(to_quoted_json_string("plain/path.js"), "\"plain/path.js\"");
    assert_eq!(to_quoted_json_string("a\"b\\c"), "\"a\\\"b\\\\c\"");
    assert_eq!(
        to_quoted_json_string("\u{8}\t\n\u{c}\r"),
        "\"\\b\\t\\n\\f\\r\""
    );
    assert_eq!(
        to_quoted_json_string("\u{0}\u{1}\u{b}\u{1f} \u{7f}"),
        "\"\\u0000\\u0001\\u000b\\u001f \u{7f}\""
    );
    assert_eq!(to_quoted_json_string("\u{e9}\u{2028}\u{1f600}"), "\"\u{e9}\u{2028}\u{1f600}\"");
    assert_eq!(count_lines(&to_quoted_json_string("a\nb\nc")), 1);
}

fn take(bundler: &mut Bundler, done: WorkDone) -> Vec<Work> {
    assert!(bundler.accepts(&done));
    bundler.done(done)
}

fn info(body: &str, deps: Vec<&str>) -> ModuleInfo {
    ModuleInfo { source: source("", body, ""), deps: deps.into_iter().map(|d| d.to_owned()).collect() }
}

#[test]
fn driver_builds_the_graph() {
    let (mut b, first) = Bundler::new("/work/app/index.js");
    assert!(matches!(first, Work::Include { ref module } if module == "/work/app/index.js"));
    assert_eq!(b.pending, 1);
    assert!(!b.is_done());
    // a resolution does not fit before the module was read
    assert!(!b.accepts(&WorkDone::Resolve {
        context: "/work/app/index.js".to_owned(),
        name: "./math".to_owned(),
        resolved: Resolved::Ignore,
    }));
    let work = take(
        &mut b,
        WorkDone::Include {
            module: "/work/app/index.js".to_owned(),
            info: info("require('./math'); require('fs'); require('./math.js')", vec!["./math", "fs", "./math.js"]),
        },
    );
    assert_eq!(work.len(), 3);
    assert!(matches!(&work[0], Work::Resolve { context, name } if context == "/work/app/index.js" && name == "./math"));
    assert_eq!(b.pending, 3);
    assert_eq!(b.modules[0].found, vec!["./math", "fs", "./math.js"]);
    // a resolution is for a specifier that was found in the module
    assert!(!b.accepts(&WorkDone::Resolve {
        context: "/work/app/index.js".to_owned(),
        name: "./other".to_owned(),
        resolved: Resolved::Ignore,
    }));
    // a module is read once
    assert!(!b.accepts(&WorkDone::Include {
        module: "/work/app/index.js".to_owned(),
        info: info("", vec![]),
    }));
    let work = take(
        &mut b,
        WorkDone::Resolve {
            context: "/work/app/index.js".to_owned(),
            name: "./math".to_owned(),
            resolved: Resolved::Normal("/work/app/math.js".to_owned()),
        },
    );
    assert_eq!(work.len(), 1);
    assert!(matches!(&work[0], Work::Include { module } if module == "/work/app/math.js"));
    assert_eq!(b.pending, 3);
    // a name resolves once in a module
    assert!(!b.accepts(&WorkDone::Resolve {
        context: "/work/app/index.js".to_owned(),
        name: "./math".to_owned(),
        resolved: Resolved::Ignore,
    }));
    let work = take(
        &mut b,
        WorkDone::Resolve {
            context: "/work/app/index.js".to_owned(),
            name: "fs".to_owned(),
            resolved: Resolved::External,
        },
    );
    assert!(work.is_empty());
    // the same file under another spelling is not read again
    let work = take(
        &mut b,
        WorkDone::Resolve {
            context: "/work/app/index.js".to_owned(),
            name: "./math.js".to_owned(),
            resolved: Resolved::Normal("/work/app//math.js".to_owned()),
        },
    );
    assert!(work.is_empty());
    assert_eq!(b.pending, 1);
    // the module that is being read waits for its own work
    assert!(!b.accepts(&WorkDone::Resolve {
        context: "/work/app/index.js".to_owned(),
        name: "late".to_owned(),
        resolved: Resolved::Ignore,
    }));
    let work = take(
        &mut b,
        WorkDone::Include { module: "/work/app/math.js".to_owned(), info: info("module.exports = 2;", vec![]) },
    );
    assert!(work.is_empty());
    assert!(b.is_done());
    for node in &b.modules {
        match &node.state {
            ModuleState::Loaded(m) => {
                for dep in &m.deps {
                    if let Resolved::Normal(p) = &dep.resolved {
                        assert!(b.find(p).is_some());
                    }
                }
            }
            ModuleState::Loading => panic!("still loading"),
        }
    }
    // the entry point is the first module, and every other module is what
    // a dependency resolved to
    assert_eq!(b.modules[0].path, "/work/app/index.js");
    assert_eq!(b.modules.len(), 2);
    assert_eq!(b.modules[1].path, "/work/app/math.js");
    let modules = b.finish("/work/app/index.js");
    assert_eq!(modules.len(), 2);
    assert_eq!(modules[0].file, "math.js");
    assert_eq!(modules[1].file, "index.js");
    assert_eq!(modules[1].module.deps.len(), 3);
}

#[test]
fn unwrap_gives_the_module_that_was_read() {
    let state = ModuleState::Loaded(Module { source: source("", "x", ""), deps: vec![] });
    assert_eq!(state.unwrap().source.body, "x");
}

#[test]
fn reading_goes_by_the_extension() {
    let json = include_module("/a/data.json", "{\"a\": 1}".to_owned(), false).unwrap();
    assert_eq!(json.source.prefix, "module.exports =");
    assert_eq!(json.source.body, "{\"a\": 1}");
    assert_eq!(json.source.suffix, "");
    assert_eq!(json.source.original, None);
    assert!(json.deps.is_empty());

    let text = "#!/usr/bin/env node\nvar m = require('./m')\n";
    let script = include_module("/p/a.js", text.to_owned(), false).unwrap();
    assert_eq!(script.deps, vec!["./m".to_owned()]);
    assert_eq!(script.source.prefix, "");
    assert_eq!(script.source.body, "///usr/bin/env node\nvar m = require('./m')\n");
    assert_eq!(script.source.suffix, "");
    assert_eq!(script.source.original, Some(text.to_owned()));

    let script = include_module(
        "/a/index.js",
        "const a = require('./a'), b = require(\"b\"), c = require(name), d = require('./a');\n".to_owned(),
        false,
    )
    .unwrap();
    assert_eq!(script.deps, vec!["./a".to_owned(), "b".to_owned()]);
    assert_eq!(script.source.prefix, "");
    assert_eq!(script.source.suffix, "");
    assert_eq!(script.source.original, None);
    assert!(script.source.body.starts_with("const a"));

    // in a script the module syntax is an error of nothing: it is not looked at
    let plain = include_module("/a/x.js", "import x from 'dep'\n".to_owned(), false).unwrap();
    assert!(plain.deps.is_empty());
    assert_eq!(plain.source.body, "import x from 'dep'\n");

    let mixed = include_module("/a/x.js", "import x from 'dep'\nrequire('r')\n".to_owned(), true).unwrap();
    assert_eq!(mixed.deps, vec!["r".to_owned(), "dep".to_owned()]);
    assert_eq!(mixed.source.original, Some("import x from 'dep'\nrequire('r')\n".to_owned()));

    let module = include_module("/a/x.mjs", "require('r')\n".to_owned(), false).unwrap();
    assert!(module.deps.is_empty());
    assert!(module.source.prefix.starts_with("Object.defineProperty(exports, '__esModule', {value: true})\n"));
}

#[test]
fn errors_of_reading() {
    assert!(matches!(
        include_module("/a/x.mjs", "import from".to_owned(), false),
        Err(CliError::Es6(_))
    ));
    assert!(matches!(
        include_module("/a/x.js", "var s = 'open".to_owned(), false),
        Err(CliError::Lex(_))
    ));
    assert!(matches!(
        include_module("/a/x.js", "require('a\\x41\\x42')".to_owned(), false),
        Err(CliError::Es6(_))
    ));
    assert!(matches!(
        include_module("/a/x.js", "var s = '\u{40000}'".to_owned(), false),
        Err(CliError::Lex(_))
    ));
    assert!(matches!(
        include_module("/a/x.js", "require('a\\x4')".to_owned(), false),
        Err(CliError::ParseStrLit(_))
    ));
    assert!(matches!(
        include_module("/a/x.js", "require('a\\x4')".to_owned(), true),
        Err(CliError::Es6(_))
    ));
    let one_escape = include_module("/a/x.js", "require('a\\x41')".to_owned(), false).unwrap();
    assert_eq!(one_escape.deps, vec!["aA".to_owned()]);
}

#[test]
fn a_hashbang_is_made_a_comment_before_a_module_is_rewritten() {
    let text = "#!/usr/bin/env node\nimport m from './m'\nexport default m\n";
    let module = include_module("/p/a.mjs", text.to_owned(), false).unwrap();
    assert_eq!(module.deps, vec!["./m".to_owned()]);
    assert!(module.source.body.starts_with("///usr/bin/env node\n"));
    assert_eq!(count_lines(&module.source.body), count_lines(text));
    assert_eq!(module.source.original, Some(text.to_owned()));
    // a hash anywhere else is still no token of the language
    let bad = include_module("/p/a.js", "var a\n#!x\n".to_owned(), false);
    assert!(matches!(bad, Err(CliError::Lex(_))));
    assert_eq!(comment_hashbang("#!a"), "//a");
    assert_eq!(comment_hashbang("#a"), "#a");
    assert_eq!(comment_hashbang(""), "");
}

#[test]
fn specifiers_beyond_ascii_are_read() {
    let script = include_module("/p/a.js", "require('./\u{e9}')\n".to_owned(), false).unwrap();
    assert_eq!(script.deps, vec!["./\u{e9}".to_owned()]);
    let module =
        include_module("/p/a.mjs", "import x from './m\u{fc}nchen'\n".to_owned(), false).unwrap();
    assert_eq!(module.deps, vec!["./m\u{fc}nchen".to_owned()]);
    let mut lexer = Lexer::new("/p/a.js", "require(\"\u{65e5}\u{672c}\")");
    let deps = cjs_parse_deps(&mut lexer).unwrap();
    assert_eq!(deps, vec!["\u{65e5}\u{672c}".to_owned()]);
}

#[test]
fn dependencies_are_written_in_the_order_of_their_names() {
    let deps = |names: &[&str]| -> Vec<Dep> {
        names
            .iter()
            .map(|n| Dep { name: (*n).to_owned(), resolved: Resolved::Ignore })
            .collect()
    };
    let expected = "{\"./m\":Shim.ignored,\"B\":Shim.ignored,\"a\":Shim.ignored,\"ab\":Shim.ignored,\"z\":Shim.ignored,\"\u{e9}\":Shim.ignored}";
    assert_eq!(stringify_deps(&deps(&["z", "a", "./m", "\u{e9}", "B", "ab"]), "/work/app/index.js"), expected);
    assert_eq!(stringify_deps(&deps(&["ab", "B", "\u{e9}", "z", "./m", "a"]), "/work/app/index.js"), expected);
    let sorted = sort_deps(&deps(&["b", "a", "c"]));
    let names: Vec<&str> = sorted.iter().map(|d| d.name.as_str()).collect();
    assert_eq!(names, vec!["a", "b", "c"]);
    assert!(text_before("a", "ab") && !text_before("ab", "a") && !text_before("a", "a"));
    assert!(text_before("", "a") && text_before("B", "a") && text_before("z", "\u{e9}"));
}

#[test]
fn the_bundle_does_not_depend_on_the_order_of_what_was_found() {
    let index = |deps: Vec<(&str, Resolved)>| {
        module("index.js", "", "require('./math'); require('./util'); require('fs')", "", deps)
    };
    let math = || module("math.js", "'use strict';", "module.exports = 2;\n", "", vec![]);
    let util = || {
        module(
            "lib/util.js",
            "",
            "exports.id = x => x\n",
            "",
            vec![("./math", Resolved::Normal("/work/app/math.js".to_owned()))],
        )
    };
    for output in [SourceMapOutput::Suppressed, SourceMapOutput::Inline] {
        let copy = match &output {
            SourceMapOutput::Suppressed => SourceMapOutput::Suppressed,
            _ => SourceMapOutput::Inline,
        };
        let a = writer(
            vec![index(vec![
                ("./math", Resolved::Normal("/work/app/math.js".to_owned())),
                ("./util", Resolved::Normal("/work/app/lib/util.js".to_owned())),
                ("fs", Resolved::Ignore),
            ]), math(), util()],
            output,
        );
        let b = writer(
            vec![util(), index(vec![
                ("fs", Resolved::Ignore),
                ("./util", Resolved::Normal("/work/app/lib/util.js".to_owned())),
                ("./math", Resolved::Normal("/work/app/math.js".to_owned())),
            ]), math()],
            copy,
        );
        let mut x = String::new();
        let mut y = String::new();
        assert!(a.write_to(&mut x));
        assert!(b.write_to(&mut y));
        assert_eq!(x, y);
        let mut m = String::new();
        let mut n = String::new();
        a.write_map_to(&mut m);
        b.write_map_to(&mut n);
        assert_eq!(m, n);
        assert!(x.contains(".deps = {\"./math\":file_math$2ejs,\"./util\":file_lib$2futil$2ejs,\"fs\":Shim.ignored};"));
        let at = |needle: &str| x.find(needle).unwrap();
        assert!(at("Shim.files[\"index.js\"]") < at("Shim.files[\"lib/util.js\"]"));
        assert!(at("Shim.files[\"lib/util.js\"]") < at("Shim.files[\"math.js\"]"));
    }
}

#[test]
fn a_module_lists_each_specifier_once() {
    let (b, _) = Bundler::new("/work/app/index.js");
    assert!(!b.accepts(&WorkDone::Include {
        module: "/work/app/index.js".to_owned(),
        info: info("", vec!["a", "b", "a"]),
    }));
    assert!(b.accepts(&WorkDone::Include {
        module: "/work/app/index.js".to_owned(),
        info: info("", vec!["a", "b", "A"]),
    }));
    let read = include_module(
        "/work/app/index.js",
        "require('a'); require('b'); require(\"a\"); require('b')\n".to_owned(),
        false,
    )
    .unwrap();
    assert_eq!(read.deps, vec!["a".to_owned(), "b".to_owned()]);
    let read = include_module(
        "/work/app/index.js",
        "import 'a'\nimport x from 'b'\nexport * from 'a'\nexport {y} from 'c'\nrequire('b')\n".to_owned(),
        true,
    )
    .unwrap();
    let mut names = read.deps.clone();
    names.sort();
    names.dedup();
    assert_eq!(names.len(), read.deps.len());
    assert_eq!(names, vec!["a".to_owned(), "b".to_owned(), "c".to_owned()]);
}

#[test]
fn every_specifier_that_was_found_is_resolved_when_the_build_is_over() {
    let (mut b, _) = Bundler::new("/p/a.js");
    let work = take(&mut b, WorkDone::Include { module: "/p/a.js".to_owned(), info: info("", vec!["x", "y"]) });
    assert_eq!(work.len(), 2);
    assert_eq!(b.pending, 2);
    take(&mut b, WorkDone::Resolve { context: "/p/a.js".to_owned(), name: "y".to_owned(), resolved: Resolved::External });
    assert!(!b.is_done());
    take(&mut b, WorkDone::Resolve { context: "/p/a.js".to_owned(), name: "x".to_owned(), resolved: Resolved::Ignore });
    assert!(b.is_done());
    match &b.modules[0].state {
        ModuleState::Loaded(m) => {
            let mut names: Vec<&str> = m.deps.iter().map(|d| d.name.as_str()).collect();
            names.sort();
            assert_eq!(names, vec!["x", "y"]);
        }
        ModuleState::Loading => panic!("still loading"),
    }
}

#[test]
fn the_text_of_a_module_is_what_its_bytes_are_in_utf8() {
    assert_eq!(module_text("/p/a.js", "r\u{e9}sum\u{e9} \u{1f600}".as_bytes().to_vec()).unwrap(), "r\u{e9}sum\u{e9} \u{1f600}");
    assert_eq!(module_text("/p/a.js", Vec::new()).unwrap(), "");
    let bad = vec![b'a', 0xff, b'b'];
    let expected = String::from_utf8(bad.clone()).unwrap_err().to_string();
    match module_text("/p/a.js", bad) {
        Err(CliError::InvalidUtf8 { context, err }) => {
            assert_eq!(context, "/p/a.js");
            assert_eq!(err, expected);
            assert_eq!(err, "invalid utf-8 sequence of 1 bytes from index 1");
        }
        other => panic!("unexpected {:?}", other),
    }
    assert!(matches!(
        module_text("/p/a.js", vec![0xe2, 0x82]),
        Err(CliError::InvalidUtf8 { .. })
    ));
}
