use pax::bundler::Bundler;
use pax::cli::entry_point;
use pax::input_options::InputOptions;
use pax::manifest::{Query, Step};
use pax::resolver::{Resolved, Resolver};
use pax::source_maps::SourceMapOutput;
use pax::worker::{include_module, Work, WorkDone};
use pax::writer::Writer;
use pax::CliError;
use std::collections::HashMap;

// Builds the bundle of an entry point over files that are held in memory.
fn bundle(files: &HashMap<&str, &str>, cwd: &str, input: &str, options: InputOptions) -> Result<String, CliError> {
    let mut resolver = Resolver::new(options.clone());
    let answer = |resolver: &mut Resolver, query: Query| match query {
        Query::IsFile(path) => {
            let is_file = files.contains_key(path.as_str());
            resolver.note_file(&path, is_file);
        }
        Query::Manifest(dir) => {
            let texts = resolver
                .input_options
                .package_manager
                .files()
                .into_iter()
                .map(|name| files.get(format!("{}/{}", dir, name).as_str()).map(|t| (*t).to_owned()))
                .collect();
            resolver.note_manifests(&dir, &texts);
        }
    };
    let main = loop {
        match resolver.resolve_main(cwd.to_owned(), input) {
            Step::Done(r) => break r?,
            Step::Ask(q) => answer(&mut resolver, q),
        }
    };
    let entry = entry_point(main)?;
    let (mut bundler, first) = Bundler::new(&entry);
    let mut queue = vec![first];
    while !queue.is_empty() {
        let work = queue.remove(0);
        let done = match work {
            Work::Include { module } => {
                let text = files.get(module.as_str()).unwrap().to_string();
                let info = include_module(&module, text, options.es6_syntax_everywhere)?;
                WorkDone::Include { module, info }
            }
            Work::Resolve { context, name } => {
                let resolved = loop {
                    match resolver.resolve(&context, &name) {
                        Step::Done(r) => break r?,
                        Step::Ask(q) => answer(&mut resolver, q),
                    }
                };
                WorkDone::Resolve { context, name, resolved }
            }
        };
        assert!(bundler.accepts(&done));
        queue.extend(bundler.done(done));
    }
    assert!(bundler.is_done());
    let writer = Writer {
        head: "var Shim = {files: {}};".to_owned(),
        tail: "".to_owned(),
        modules: bundler.finish(&entry),
        entry_point: entry,
        map_output: SourceMapOutput::Suppressed,
    };
    let mut out = String::new();
    assert!(writer.write_to(&mut out));
    Ok(out)
}

#[test]
fn one_file_requires_another() {
    let mut files = HashMap::new();
    files.insert("/examples/one-file/index.js", "module.exports = require('./math')\n");
    files.insert("/examples/one-file/math.js", "module.exports = 2;");
    let out = bundle(&files, "/", "examples/one-file/index.js", InputOptions::default()).unwrap();
    assert_eq!(
        out,
        "var Shim = {files: {}};\
\n  Shim.files[\"index.js\"] = file_index$2ejs; file_index$2ejs.deps = {\"./math\":file_math$2ejs}; file_index$2ejs.filename = \"index.js\"; function file_index$2ejs(module, exports, require, __filename, __dirname, __import_meta) {\n\
module.exports = require('./math')\n\
}\
\n  Shim.files[\"math.js\"] = file_math$2ejs; file_math$2ejs.deps = {}; file_math$2ejs.filename = \"math.js\"; function file_math$2ejs(module, exports, require, __filename, __dirname, __import_meta) {\n\
module.exports = 2;\n\
}\
\n  Shim.main = file_index$2ejs; Shim.makeRequire(null)()\n  if (typeof module !== 'undefined') module.exports = Shim.main.module && Shim.main.module.exports\n"
    );
}

#[test]
fn packages_and_modules_come_along() {
    let mut files = HashMap::new();
    files.insert("/app/src/main.mjs", "import {twice} from 'lib'\nimport data from './data'\nexport default twice(data.n)\n");
    files.insert("/app/src/data.json", "{\"n\": 21}");
    files.insert("/app/node_modules/lib/package.json", "{\"main\": \"dist/lib\", \"browser\": {\"fs\": false}}");
    files.insert("/app/node_modules/lib/dist/lib.js", "require('fs'); require('util'); exports.twice = n => 2 * n\n");
    let mut options = InputOptions::default();
    options.external.push("util".to_owned());
    let out = bundle(&files, "/app", "./src/main", options).unwrap();
    assert!(out.contains("Shim.files[\"main.mjs\"] = file_main$2emjs; file_main$2emjs.deps = {\"./data\":file_data$2ejson,\"lib\":file_$2fapp$2fnode_modules$2flib$2fdist$2flib$2ejs};"));
    assert!(out.contains("file_data$2ejson.deps = {};"));
    assert!(out.contains("\nmodule.exports =\n{\"n\": 21}\n}"));
    assert!(out.contains("file_$2fapp$2fnode_modules$2flib$2fdist$2flib$2ejs.deps = {\"fs\":Shim.ignored};"));
    assert!(out.contains("\n  Shim.main = file_main$2emjs; "));
}

#[test]
fn what_is_missing_is_an_error() {
    let mut files = HashMap::new();
    files.insert("/app/index.js", "require('./gone')\n");
    files.insert("/app/empty.js", "require('')\n");
    assert!(matches!(
        bundle(&files, "/app", "index", InputOptions::default()),
        Err(CliError::ModuleNotFound { context, name }) if context == "/app/index.js" && name == "./gone"
    ));
    assert!(matches!(
        bundle(&files, "/app", "empty.js", InputOptions::default()),
        Err(CliError::EmptyModuleName { context }) if context == "/app/empty.js"
    ));
    assert!(matches!(
        bundle(&files, "/app", "nothing", InputOptions::default()),
        Err(CliError::MainNotFound { name }) if name == "nothing"
    ));
    assert!(matches!(
        bundle(&files, "/", "", InputOptions::default()),
        Err(CliError::RequireRoot { context: None, path }) if path == "/"
    ));
}

#[test]
fn substitutions_of_modules_are_followed() {
    let mut files = HashMap::new();
    files.insert("/app/package.json", "{\"browser\": {\"a\": \"b\", \"b\": \"./c\", \"loop\": \"loop\", \"gone\": false}}");
    files.insert("/app/index.js", "");
    files.insert("/app/c/sub.js", "");
    let mut resolver = Resolver::new(InputOptions::default());
    let mut resolve = |name: &str| loop {
        match resolver.resolve("/app/index.js", name) {
            Step::Done(r) => break r,
            Step::Ask(Query::IsFile(path)) => {
                let is_file = files.contains_key(path.as_str());
                resolver.note_file(&path, is_file);
            }
            Step::Ask(Query::Manifest(dir)) => {
                let texts = vec![files.get(format!("{}/package.json", dir).as_str()).map(|t| (*t).to_owned())];
                resolver.note_manifests(&dir, &texts);
            }
        }
    };
    assert_eq!(resolve("a/sub").unwrap(), Resolved::Normal("/app/c/sub.js".to_owned()));
    assert_eq!(resolve("gone/x").unwrap(), Resolved::Ignore);
    assert!(matches!(resolve("loop"), Err(CliError::ModuleNotFound { .. })));
}

#[test]
fn what_is_known_before_does_not_change_the_result() {
    let mut files = HashMap::new();
    files.insert("/app/package.json", "{\"main\": \"lib\"}");
    files.insert("/app/lib/index.js", "");
    files.insert("/app/lib.json", "");
    files.insert("/app/node_modules/dep/package.json", "{\"main\": \"./dist/dep\"}");
    files.insert("/app/node_modules/dep/dist/dep.mjs", "");
    files.insert("/app/node_modules/dep/dist/dep.js", "");
    let ask = |resolver: &mut Resolver, query: Query| match query {
        Query::IsFile(path) => {
            let is_file = files.contains_key(path.as_str());
            resolver.note_file(&path, is_file);
        }
        Query::Manifest(dir) => {
            let texts = vec![files.get(format!("{}/package.json", dir).as_str()).map(|t| (*t).to_owned())];
            resolver.note_manifests(&dir, &texts);
        }
    };
    let run = |resolver: &mut Resolver, context: &str, name: &str| loop {
        match resolver.resolve(context, name) {
            Step::Done(r) => break r,
            Step::Ask(q) => ask(resolver, q),
        }
    };
    let cases = [
        ("/app/lib/index.js", "dep"),
        ("/app/lib/index.js", "dep/dist/dep"),
        ("/app/lib/index.js", ".."),
        ("/app/lib/index.js", "../"),
        ("/app/lib/index.js", "../lib"),
        ("/app/lib/index.js", "../lib/"),
        ("/app/x.js", "./lib.json"),
        ("/app/x.js", "nothing"),
    ];
    let expected = [
        Some("/app/node_modules/dep/dist/dep.mjs"),
        Some("/app/node_modules/dep/dist/dep.mjs"),
        Some("/app/lib.json"),
        Some("/app/lib.json"),
        Some("/app/lib.json"),
        Some("/app/lib/index.js"),
        Some("/app/lib.json"),
        None,
    ];
    // one resolver for each question, one for all of them in turn, and one that was told
    // of the disk beforehand, in another order
    let mut shared = Resolver::new(InputOptions::default());
    let mut told = Resolver::new(InputOptions::default());
    for dir in ["/", "/app/lib", "/app/node_modules/dep/dist", "/app", "/app/node_modules/dep"] {
        ask(&mut told, Query::Manifest(dir.to_owned()));
    }
    let mut paths: Vec<&str> = files.keys().copied().collect();
    paths.sort();
    paths.reverse();
    for path in paths {
        ask(&mut told, Query::IsFile(path.to_owned()));
    }
    for ((context, name), to) in cases.iter().rev().zip(expected.iter().rev()) {
        let mut fresh = Resolver::new(InputOptions::default());
        let a = run(&mut fresh, context, name).ok();
        let b = run(&mut shared, context, name).ok();
        let c = run(&mut told, context, name).ok();
        assert_eq!(a, to.map(|p| Resolved::Normal(p.to_owned())), "{} from {}", name, context);
        assert_eq!(a, b);
        assert_eq!(a, c);
    }
}
