use pax::cli::{core_module_names, entry_point, parse_args, watch_changes, Arg};
use pax::es6::error::{Error, ErrorKind, LexError, LexErrorKind, Loc, Span, StrLitError};
use pax::input_options::{InputOptions, PackageManager};
use pax::resolver::Resolved;
use pax::source_maps::SourceMapOutput;
use pax::CliError;

fn args(list: &[&str]) -> Vec<Arg> {
    list.iter()
        .map(|a| {
            if a.starts_with('-') && a.len() > 1 {
                Arg::Opt((*a).to_owned())
            } else {
                Arg::Pos((*a).to_owned())
            }
        })
        .collect()
}

#[test]
fn positions_are_input_and_output() {
    let o = parse_args(&args(&["in.js"])).unwrap();
    assert_eq!(o.input, "in.js");
    assert_eq!(o.output, "-");
    assert_eq!(o.map_output, SourceMapOutput::Suppressed);
    assert_eq!(o.input_options, InputOptions::default());
    assert!(!o.watch && !o.quiet_watch);

    let o = parse_args(&args(&["in.js", "out.js"])).unwrap();
    assert_eq!(o.output, "out.js");
    assert_eq!(
        o.map_output,
        SourceMapOutput::File("out.js.map".to_owned(), "out.js".to_owned())
    );
    assert!(matches!(
        parse_args(&args(&["a", "b", "c"])),
        Err(CliError::UnexpectedArg(a)) if a == "c"
    ));
    assert!(matches!(parse_args(&args(&[])), Err(CliError::MissingFileName)));
    assert!(matches!(parse_args(&args(&["-w"])), Err(CliError::MissingFileName)));
}

#[test]
fn options_set_flags() {
    let o = parse_args(&args(&["-i", "in.js", "-o", "out.js", "-m", "maps/m.map", "-W", "-b", "-E"])).unwrap();
    assert_eq!(o.input, "in.js");
    assert_eq!(o.output, "out.js");
    assert_eq!(
        o.map_output,
        SourceMapOutput::File("maps/m.map".to_owned(), "out.js".to_owned())
    );
    assert!(o.watch && o.quiet_watch);
    assert_eq!(o.input_options.package_manager, PackageManager::Bower);
    assert!(o.input_options.es6_syntax && o.input_options.es6_syntax_everywhere);

    let o = parse_args(&args(&["--input", "in.js", "--watch", "--es-syntax", "--map-inline", "--for-browser"])).unwrap();
    assert!(o.watch && !o.quiet_watch);
    assert!(o.input_options.es6_syntax && !o.input_options.es6_syntax_everywhere);
    assert_eq!(o.input_options.package_manager, PackageManager::Npm);
    assert_eq!(o.map_output, SourceMapOutput::Inline);

    let o = parse_args(&args(&["in.js", "out.js", "--no-map"])).unwrap();
    assert_eq!(o.map_output, SourceMapOutput::Suppressed);
    // the value of an option is the next argument, whatever it looks like
    let o = parse_args(&args(&["-o", "-", "-i", "-x"])).unwrap();
    assert_eq!(o.input, "-x");
    assert_eq!(o.output, "-");
}

#[test]
fn external_modules_are_split_at_commas() {
    let o = parse_args(&args(&["in.js", "-x", "a, b ,c,a", "--external", "d"])).unwrap();
    assert_eq!(o.input_options.external, vec!["a", "b", "c", "d"]);
    assert!(o.input_options.is_external("b"));
    assert!(!o.input_options.is_external("a, b"));
    let o = parse_args(&args(&["in.js", "--external-core", "-x", "fs,mine"])).unwrap();
    assert_eq!(o.input_options.external.len(), 28);
    assert_eq!(core_module_names().len(), 27);
    assert!(o.input_options.is_external("zlib"));
    assert!(o.input_options.is_external("mine"));
}

#[test]
fn errors_of_usage() {
    assert!(matches!(parse_args(&args(&["--help", "x"])), Err(CliError::Help)));
    assert!(matches!(parse_args(&args(&["x", "-h"])), Err(CliError::Help)));
    assert!(matches!(parse_args(&args(&["-v"])), Err(CliError::Version)));
    assert!(matches!(parse_args(&args(&["--version"])), Err(CliError::Version)));
    assert!(matches!(parse_args(&args(&["x", "-q"])), Err(CliError::UnknownOption(o)) if o == "-q"));
    assert!(matches!(parse_args(&args(&["x", "-m"])), Err(CliError::MissingOptionValue(o)) if o == "-m"));
    assert!(matches!(parse_args(&args(&["x", "-x"])), Err(CliError::MissingOptionValue(o)) if o == "-x"));
    assert!(matches!(parse_args(&args(&["-i"])), Err(CliError::MissingOptionValue(o)) if o == "-i"));
    assert!(matches!(parse_args(&args(&["x", "-i", "y"])), Err(CliError::DuplicateOption(o)) if o == "-i"));
    assert!(matches!(parse_args(&args(&["-o", "a", "x", "--output", "b"])), Err(CliError::DuplicateOption(o)) if o == "--output"));
    assert!(matches!(parse_args(&args(&["x", "-m", "a", "-m", "b"])), Err(CliError::DuplicateOption(o)) if o == "-m"));
    assert!(matches!(parse_args(&args(&["x", "-I", "-M"])), Err(CliError::BadUsage(_))));
    assert!(matches!(parse_args(&args(&["x", "-I", "-m", "f"])), Err(CliError::BadUsage(_))));
    assert!(matches!(parse_args(&args(&["x", "-M", "--map", "f"])), Err(CliError::BadUsage(_))));
    // the exclusion comes before the missing input
    assert!(matches!(parse_args(&args(&["-I", "-M"])), Err(CliError::BadUsage(_))));
}

#[test]
fn main_module_must_be_a_file() {
    assert_eq!(entry_point(Resolved::Normal("/a.js".to_owned())).unwrap(), "/a.js");
    assert!(matches!(entry_point(Resolved::External), Err(CliError::ExternalMain)));
    assert!(matches!(entry_point(Resolved::Ignore), Err(CliError::IgnoredMain)));
}

fn span(start: (usize, usize), end: (usize, usize)) -> Span {
    Span {
        file_name: "f.js".to_owned(),
        start: Loc { pos: 0, row: start.0, col: start.1 },
        end: Loc { pos: 0, row: end.0, col: end.1 },
    }
}

#[test]
fn messages() {
    assert_eq!(CliError::ExternalMain.message(), "main module is --external");
    assert_eq!(
        CliError::IgnoredMain.message(),
        "main module is ignored by a browser field substitution"
    );
    assert_eq!(
        CliError::DuplicateOption("-m".to_owned()).message(),
        "option -m specified more than once"
    );
    assert_eq!(
        CliError::MissingOptionValue("-m".to_owned()).message(),
        "missing value for option -m"
    );
    assert_eq!(CliError::UnknownOption("-q".to_owned()).message(), "unknown option -q");
    assert_eq!(CliError::UnexpectedArg("c".to_owned()).message(), "unexpected argument c");
    assert_eq!(CliError::BadUsage("bad").message(), "bad");
    assert_eq!(
        CliError::RequireRoot { context: None, path: "/".to_owned() }.message(),
        "main module is root path /"
    );
    assert_eq!(
        CliError::RequireRoot { context: Some("/a.js".to_owned()), path: "/".to_owned() }.message(),
        "require of root path / in /a.js"
    );
    assert_eq!(
        CliError::EmptyModuleName { context: "/a.js".to_owned() }.message(),
        "require('') in /a.js"
    );
    assert_eq!(
        CliError::ModuleNotFound { context: "/a.js".to_owned(), name: "m".to_owned() }.message(),
        "module 'm' not found in /a.js"
    );
    assert_eq!(
        CliError::MainNotFound { name: "m".to_owned() }.message(),
        "main module 'm' not found"
    );
    assert_eq!(
        CliError::InvalidUtf8 { context: "/a.js".to_owned(), err: "bad byte".to_owned() }.message(),
        "in /a.js: bad byte"
    );
    assert_eq!(CliError::Io("gone".to_owned()).message(), "gone");
    assert_eq!(CliError::Json("j".to_owned()).message(), "j");
    assert_eq!(CliError::Notify("n".to_owned()).message(), "n");
    assert_eq!(CliError::Box("b".to_owned()).message(), "b");
    assert_eq!(
        CliError::ParseStrLit(StrLitError::NotChar).message(),
        "hexadecimal number in `\\u{…}` escape is not a Unicode Scalar Value"
    );
    assert_eq!(
        CliError::Es6(Error { kind: ErrorKind::Expected("keyword 'from'"), span: span((0, 3), (0, 3)) })
            .message(),
        "expected keyword 'from' at f.js:1,4"
    );
    assert_eq!(
        CliError::Es6(Error {
            kind: ErrorKind::ParseStrLitError(StrLitError::ExpectedEscape),
            span: span((0, 3), (0, 9)),
        })
        .message(),
        "invalid string literal: expected escape sequence, but got end of string at f.js:1,4-10"
    );
    assert_eq!(
        CliError::Lex(LexError { kind: LexErrorKind::Unexpected('#'), span: span((1, 0), (2, 5)) })
            .message(),
        "unexpected # at f.js:2,1-3,6"
    );
    assert_eq!(
        CliError::Lex(LexError {
            kind: LexErrorKind::UnterminatedStringLiteral,
            span: span((9, 99), (9, 100)),
        })
        .message(),
        "unterminated string literal at f.js:10,100-101"
    );
    assert_eq!(CliError::Version.message(), "pax v0.4.0");
    assert_eq!(
        CliError::MissingFileName.message(),
        "Usage: px [options] <input> [output]\n       px [-h | --help | -v | --version]"
    );
    let help = CliError::Help.message();
    assert!(help.starts_with("pax v0.4.0\n\nUsage: px [options] <input> [output]\n"));
    assert!(help.contains("\n\nOptions:\n    -i, --input <input>\n"));
    assert!(help.ends_with("    -v, --version\n        Print version information.\n"));
    assert!(CliError::Help.is_plain() && CliError::Version.is_plain());
    assert!(CliError::MissingFileName.is_plain() && !CliError::ExternalMain.is_plain());
}

#[test]
fn watching_follows_the_modules() {
    let old = vec!["/a.js".to_owned(), "/b.js".to_owned()];
    let new = vec!["/b.js".to_owned(), "/c.js".to_owned(), "/d.js".to_owned()];
    assert_eq!(watch_changes(&new, &old), vec!["/c.js", "/d.js"]);
    assert_eq!(watch_changes(&old, &new), vec!["/a.js"]);
    assert!(watch_changes(&old, &old).is_empty());
}

#[test]
fn messages_of_the_analyzer_are_its_own() {
    let ours = [
        StrLitError::ExpectedEscape,
        StrLitError::ExpectedHex2,
        StrLitError::NotHex2,
        StrLitError::ExpectedRbrace,
        StrLitError::NotHex,
        StrLitError::NotChar,
        StrLitError::ExpectedHex4,
        StrLitError::NotHex4,
    ];
    let theirs = [
        esparse::lex::ParseStrLitError::ExpectedEscape,
        esparse::lex::ParseStrLitError::ExpectedHex2,
        esparse::lex::ParseStrLitError::NotHex2,
        esparse::lex::ParseStrLitError::ExpectedRbrace,
        esparse::lex::ParseStrLitError::NotHex,
        esparse::lex::ParseStrLitError::NotChar,
        esparse::lex::ParseStrLitError::ExpectedHex4,
        esparse::lex::ParseStrLitError::NotHex4,
    ];
    for (a, b) in ours.iter().zip(theirs.iter()) {
        assert_eq!(CliError::ParseStrLit(*a).message(), b.to_string());
    }
    assert_eq!(
        CliError::ParseStrLit(StrLitError::ExpectedHex4).message(),
        "expected four hexadecimal characters or '{\u{2026}}' after '\\u'"
    );
    assert_eq!(
        CliError::ParseStrLit(StrLitError::ExpectedEscape).message(),
        "expected escape sequence, but got end of string"
    );
}
