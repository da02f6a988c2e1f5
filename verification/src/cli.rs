//! The command line: what the arguments ask for, and what an error says.

use vstd::prelude::*;
use crate::es6::error::{
    Error,
    ErrorKind,
    ErrorKindView,
    ErrorView,
    LexError,
    LexErrorKind,
    LexErrorView,
    Loc,
    Span,
    SpanView,
    StrLitError,
};
use crate::es6::{insert, insert_dep};
use crate::input_options::{InputOptions, InputOptionsView, PackageManager};
use crate::resolver::{Resolved, ResolvedView};
use crate::source_maps::{SourceMapOutput, SourceMapOutputView};
use crate::text::{decimal, push_decimal_wide, str_eq};
use crate::{CliError, CliErrorView};

verus! {

/// An argument of the command line: a position, or an option by its name.
#[derive(Debug, Clone, PartialEq, Eq)]
pub enum Arg {
    Pos(String),
    Opt(String),
}

pub enum ArgView {
    Pos(Seq<char>),
    Opt(Seq<char>),
}

impl View for Arg {
    type V = ArgView;

    open spec fn view(&self) -> ArgView {
        match self {
            Arg::Pos(s) => ArgView::Pos(s@),
            Arg::Opt(s) => ArgView::Opt(s@),
        }
    }
}

impl DeepView for Arg {
    type V = ArgView;

    open spec fn deep_view(&self) -> ArgView {
        self@
    }
}

/// The text of an argument.
pub open spec fn arg_text(a: ArgView) -> Seq<char> {
    match a {
        ArgView::Pos(s) => s,
        ArgView::Opt(s) => s,
    }
}

/// What the arguments read so far ask for.
#[derive(Debug)]
pub struct Flags {
    pub input: Option<String>,
    pub output: Option<String>,
    pub map: Option<String>,
    pub package_manager: PackageManager,
    pub es6_syntax: bool,
    pub es6_syntax_everywhere: bool,
    pub map_inline: bool,
    pub no_map: bool,
    pub watch: bool,
    pub quiet_watch: bool,
    pub external: Vec<String>,
}

pub struct FlagsView {
    pub input: Option<Seq<char>>,
    pub output: Option<Seq<char>>,
    pub map: Option<Seq<char>>,
    pub package_manager: PackageManager,
    pub es6_syntax: bool,
    pub es6_syntax_everywhere: bool,
    pub map_inline: bool,
    pub no_map: bool,
    pub watch: bool,
    pub quiet_watch: bool,
    pub external: Seq<Seq<char>>,
}

/// A text that may be missing, as a value.
pub open spec fn text_view(s: Option<String>) -> Option<Seq<char>> {
    match s {
        Some(x) => Some(x@),
        None => None,
    }
}

impl View for Flags {
    type V = FlagsView;

    open spec fn view(&self) -> FlagsView {
        FlagsView {
            input: text_view(self.input),
            output: text_view(self.output),
            map: text_view(self.map),
            package_manager: self.package_manager,
            es6_syntax: self.es6_syntax,
            es6_syntax_everywhere: self.es6_syntax_everywhere,
            map_inline: self.map_inline,
            no_map: self.no_map,
            watch: self.watch,
            quiet_watch: self.quiet_watch,
            external: self.external.deep_view(),
        }
    }
}

/// What a command line asks for.
#[derive(Debug)]
pub struct Options {
    pub input: String,
    pub output: String,
    pub map_output: SourceMapOutput,
    pub input_options: InputOptions,
    pub watch: bool,
    pub quiet_watch: bool,
}

pub struct OptionsView {
    pub input: Seq<char>,
    pub output: Seq<char>,
    pub map_output: SourceMapOutputView,
    pub input_options: InputOptionsView,
    pub watch: bool,
    pub quiet_watch: bool,
}

impl View for Options {
    type V = OptionsView;

    open spec fn view(&self) -> OptionsView {
        OptionsView {
            input: self.input@,
            output: self.output@,
            map_output: self.map_output@,
            input_options: self.input_options@,
            watch: self.watch,
            quiet_watch: self.quiet_watch,
        }
    }
}

/// The parts of a list of module names: what stands between the commas,
/// without the whitespace around them.
pub uninterp spec fn comma_split(mods: Seq<char>) -> Seq<Seq<char>>;

/// The parts of the list `mods`.
///
/// Trusted: this is `regex::Regex::split` of the pattern `\s*,\s*`, which
/// compiles, with each part copied. The result is a function of the text
/// alone.
#[verifier::external_body]
fn split_commas(mods: &str) -> (parts: Vec<String>)
    ensures
        parts.deep_view() == comma_split(mods@),
{
    regex::Regex::new(r"\s*,\s*").unwrap().split(mods).map(|m| m.to_string()).collect()
}

/// The modules that come with the runtime.
pub open spec fn core_modules() -> Seq<Seq<char>> {
    seq![
        "assert"@,
        "buffer"@,
        "child_process"@,
        "cluster"@,
        "crypto"@,
        "dgram"@,
        "dns"@,
        "domain"@,
        "events"@,
        "fs"@,
        "http"@,
        "https"@,
        "net"@,
        "os"@,
        "path"@,
        "punycode"@,
        "querystring"@,
        "readline"@,
        "stream"@,
        "string_decoder"@,
        "tls"@,
        "tty"@,
        "url"@,
        "util"@,
        "v8"@,
        "vm"@,
        "zlib"@,
    ]
}

/// `set` with the first `k` of `items` added, each unless it is there.
pub open spec fn insert_all(set: Seq<Seq<char>>, items: Seq<Seq<char>>, k: nat) -> Seq<Seq<char>>
    decreases k,
{
    if k == 0 {
        set
    } else {
        insert(insert_all(set, items, (k - 1) as nat), items[k - 1])
    }
}

/// The flags at the start.
pub open spec fn no_flags() -> FlagsView {
    FlagsView {
        input: None,
        output: None,
        map: None,
        package_manager: PackageManager::Npm,
        es6_syntax: false,
        es6_syntax_everywhere: false,
        map_inline: false,
        no_map: false,
        watch: false,
        quiet_watch: false,
        external: Seq::empty(),
    }
}

/// Whether an option is one of two names.
pub open spec fn named(opt: Seq<char>, short: Seq<char>, long: Seq<char>) -> bool {
    opt == short || opt == long
}

/// The value of the option at index `i`: the text of the argument after
/// it.
pub open spec fn value_of(args: Seq<ArgView>, i: nat, opt: Seq<char>) -> Result<
    Seq<char>,
    CliErrorView,
> {
    if i + 1 < args.len() {
        Ok(arg_text(args[i as int + 1]))
    } else {
        Err(CliErrorView::MissingOptionValue(opt))
    }
}

/// The flags after the option `opt` at index `i`, and how many arguments
/// it took.
pub open spec fn option(args: Seq<ArgView>, i: nat, opt: Seq<char>, f: FlagsView) -> Result<
    (FlagsView, nat),
    CliErrorView,
> {
    if named(opt, "-h"@, "--help"@) {
        Err(CliErrorView::Help)
    } else if named(opt, "-v"@, "--version"@) {
        Err(CliErrorView::Version)
    } else if named(opt, "-w"@, "--watch"@) {
        Ok((FlagsView { watch: true, ..f }, 1))
    } else if named(opt, "-W"@, "--quiet-watch"@) {
        Ok((FlagsView { watch: true, quiet_watch: true, ..f }, 1))
    } else if named(opt, "-I"@, "--map-inline"@) {
        Ok((FlagsView { map_inline: true, ..f }, 1))
    } else if named(opt, "-M"@, "--no-map"@) {
        Ok((FlagsView { no_map: true, ..f }, 1))
    } else if named(opt, "-b"@, "--for-bower"@) {
        Ok((FlagsView { package_manager: PackageManager::Bower, ..f }, 1))
    } else if opt == "--for-browser"@ {
        Ok((f, 1))
    } else if named(opt, "-e"@, "--es-syntax"@) {
        Ok((FlagsView { es6_syntax: true, ..f }, 1))
    } else if named(opt, "-E"@, "--es-syntax-everywhere"@) {
        Ok((FlagsView { es6_syntax: true, es6_syntax_everywhere: true, ..f }, 1))
    } else if named(opt, "-x"@, "--external"@) {
        match value_of(args, i, opt) {
            Ok(mods) => Ok(
                (
                    FlagsView {
                        external: insert_all(
                            f.external,
                            comma_split(mods),
                            comma_split(mods).len(),
                        ),
                        ..f
                    },
                    2,
                ),
            ),
            Err(e) => Err(e),
        }
    } else if opt == "--external-core"@ {
        Ok(
            (
                FlagsView {
                    external: insert_all(f.external, core_modules(), core_modules().len()),
                    ..f
                },
                1,
            ),
        )
    } else if named(opt, "-m"@, "--map"@) {
        if f.map.is_some() {
            Err(CliErrorView::DuplicateOption(opt))
        } else {
            match value_of(args, i, opt) {
                Ok(v) => Ok((FlagsView { map: Some(v), ..f }, 2)),
                Err(e) => Err(e),
            }
        }
    } else if named(opt, "-i"@, "--input"@) {
        if f.input.is_some() {
            Err(CliErrorView::DuplicateOption(opt))
        } else {
            match value_of(args, i, opt) {
                Ok(v) => Ok((FlagsView { input: Some(v), ..f }, 2)),
                Err(e) => Err(e),
            }
        }
    } else if named(opt, "-o"@, "--output"@) {
        if f.output.is_some() {
            Err(CliErrorView::DuplicateOption(opt))
        } else {
            match value_of(args, i, opt) {
                Ok(v) => Ok((FlagsView { output: Some(v), ..f }, 2)),
                Err(e) => Err(e),
            }
        }
    } else {
        Err(CliErrorView::UnknownOption(opt))
    }
}

/// The flags after the argument at index `i`, and how many arguments it
/// took. The first position is the input, the second the output.
pub open spec fn argument(args: Seq<ArgView>, i: nat, f: FlagsView) -> Result<
    (FlagsView, nat),
    CliErrorView,
> {
    match args[i as int] {
        ArgView::Pos(a) => if f.input.is_none() {
            Ok((FlagsView { input: Some(a), ..f }, 1))
        } else if f.output.is_none() {
            Ok((FlagsView { output: Some(a), ..f }, 1))
        } else {
            Err(CliErrorView::UnexpectedArg(a))
        },
        ArgView::Opt(opt) => option(args, i, opt, f),
    }
}

/// The flags after the arguments from index `i` on.
pub open spec fn flags_from(args: Seq<ArgView>, i: nat, f: FlagsView) -> Result<
    FlagsView,
    CliErrorView,
>
    decreases args.len() - i,
{
    if i >= args.len() {
        Ok(f)
    } else {
        match argument(args, i, f) {
            Ok((g, n)) => if n >= 1 {
                flags_from(args, i + n, g)
            } else {
                Ok(g)
            },
            Err(e) => Err(e),
        }
    }
}

/// Where the source map goes: as asked for; else nowhere for a bundle on
/// the standard output, and beside any other bundle, named like it with
/// `.map` added.
pub open spec fn map_output_of(f: FlagsView, output: Seq<char>) -> SourceMapOutputView {
    if f.map_inline {
        SourceMapOutputView::Inline
    } else if f.no_map {
        SourceMapOutputView::Suppressed
    } else {
        match f.map {
            Some(path) => SourceMapOutputView::File(path, output),
            None => if output == "-"@ {
                SourceMapOutputView::Suppressed
            } else {
                SourceMapOutputView::File(output + ".map"@, output)
            },
        }
    }
}

/// How many of the ways to place the source map were asked for.
pub open spec fn map_choices(f: FlagsView) -> nat {
    (if f.map_inline {
        1nat
    } else {
        0nat
    }) + (if f.no_map {
        1nat
    } else {
        0nat
    }) + (if f.map.is_some() {
        1nat
    } else {
        0nat
    })
}

/// What flags come to: the source map has one place at most, and there is
/// an input. The output is the standard output, `-`, unless one is named.
pub open spec fn settled(f: FlagsView) -> Result<OptionsView, CliErrorView> {
    if map_choices(f) > 1 {
        Err(
            CliErrorView::BadUsage(
                "--map-inline, --map <file>, and --no-map are mutually exclusive"@,
            ),
        )
    } else {
        match f.input {
            None => Err(CliErrorView::MissingFileName),
            Some(input) => {
                let output = match f.output {
                    Some(o) => o,
                    None => "-"@,
                };
                Ok(
                    OptionsView {
                        input,
                        output,
                        map_output: map_output_of(f, output),
                        input_options: InputOptionsView {
                            package_manager: f.package_manager,
                            es6_syntax: f.es6_syntax,
                            es6_syntax_everywhere: f.es6_syntax_everywhere,
                            external: f.external,
                        },
                        watch: f.watch,
                        quiet_watch: f.quiet_watch,
                    },
                )
            },
        }
    }
}

/// What a command line asks for.
pub open spec fn parsed(args: Seq<ArgView>) -> Result<OptionsView, CliErrorView> {
    match flags_from(args, 0, no_flags()) {
        Ok(f) => settled(f),
        Err(e) => Err(e),
    }
}

fn add_all(set: &mut Vec<String>, items: Vec<String>)
    ensures
        final(set).deep_view() == insert_all(
            old(set).deep_view(),
            items.deep_view(),
            items@.len() as nat,
        ),
{
    let mut k: usize = 0;
    while k < items.len()
        invariant
            k <= items@.len(),
            items.deep_view().len() == items@.len(),
            set.deep_view() == insert_all(old(set).deep_view(), items.deep_view(), k as nat),
        decreases items@.len() - k,
    {
        assert(items.deep_view()[k as int] == items@[k as int]@);
        insert_dep(set, items[k].clone());
        k += 1;
    }
}

/// The modules that come with the runtime.
pub fn core_module_names() -> (v: Vec<String>)
    ensures
        v.deep_view() == core_modules(),
{
    let mut v: Vec<String> = Vec::new();
    v.push("assert".to_owned());
    v.push("buffer".to_owned());
    v.push("child_process".to_owned());
    v.push("cluster".to_owned());
    v.push("crypto".to_owned());
    v.push("dgram".to_owned());
    v.push("dns".to_owned());
    v.push("domain".to_owned());
    v.push("events".to_owned());
    v.push("fs".to_owned());
    v.push("http".to_owned());
    v.push("https".to_owned());
    v.push("net".to_owned());
    v.push("os".to_owned());
    v.push("path".to_owned());
    v.push("punycode".to_owned());
    v.push("querystring".to_owned());
    v.push("readline".to_owned());
    v.push("stream".to_owned());
    v.push("string_decoder".to_owned());
    v.push("tls".to_owned());
    v.push("tty".to_owned());
    v.push("url".to_owned());
    v.push("util".to_owned());
    v.push("v8".to_owned());
    v.push("vm".to_owned());
    v.push("zlib".to_owned());
    assert(v.deep_view() =~= core_modules());
    v
}

fn is_named(opt: &str, short: &str, long: &str) -> (r: bool)
    ensures
        r == named(opt@, short@, long@),
{
    str_eq(opt, short) || str_eq(opt, long)
}

fn next_arg(args: &Vec<Arg>, i: usize, opt: &str) -> (r: Result<String, CliError>)
    requires
        i < args@.len(),
    ensures
        match value_of(args.deep_view(), i as nat, opt@) {
            Ok(v) => r matches Ok(x) && x@ == v,
            Err(e) => r matches Err(x) && x@ == e,
        },
{
    if i < args.len() - 1 {
        assert(args.deep_view()[i + 1] == args@[i + 1]@);
        match &args[i + 1] {
            Arg::Pos(s) => Ok(s.clone()),
            Arg::Opt(s) => Ok(s.clone()),
        }
    } else {
        Err(CliError::MissingOptionValue(opt.to_owned()))
    }
}

fn take_option(args: &Vec<Arg>, i: usize, opt: &str, f: Flags) -> (r: Result<(Flags, usize), CliError>)
    requires
        i < args@.len(),
    ensures
        match option(args.deep_view(), i as nat, opt@, f@) {
            Ok((g, n)) => r matches Ok(x) && x.0@ == g && x.1 == n && 1 <= n <= 2 && i + n
                <= args@.len(),
            Err(e) => r matches Err(x) && x@ == e,
        },
{
    let mut f = f;
    if is_named(opt, "-h", "--help") {
        Err(CliError::Help)
    } else if is_named(opt, "-v", "--version") {
        Err(CliError::Version)
    } else if is_named(opt, "-w", "--watch") {
        f.watch = true;
        Ok((f, 1))
    } else if is_named(opt, "-W", "--quiet-watch") {
        f.watch = true;
        f.quiet_watch = true;
        Ok((f, 1))
    } else if is_named(opt, "-I", "--map-inline") {
        f.map_inline = true;
        Ok((f, 1))
    } else if is_named(opt, "-M", "--no-map") {
        f.no_map = true;
        Ok((f, 1))
    } else if is_named(opt, "-b", "--for-bower") {
        f.package_manager = PackageManager::Bower;
        Ok((f, 1))
    } else if str_eq(opt, "--for-browser") {
        Ok((f, 1))
    } else if is_named(opt, "-e", "--es-syntax") {
        f.es6_syntax = true;
        Ok((f, 1))
    } else if is_named(opt, "-E", "--es-syntax-everywhere") {
        f.es6_syntax = true;
        f.es6_syntax_everywhere = true;
        Ok((f, 1))
    } else if is_named(opt, "-x", "--external") {
        match next_arg(args, i, opt) {
            Ok(mods) => {
                add_all(&mut f.external, split_commas(mods.as_str()));
                Ok((f, 2))
            },
            Err(e) => Err(e),
        }
    } else if str_eq(opt, "--external-core") {
        add_all(&mut f.external, core_module_names());
        Ok((f, 1))
    } else if is_named(opt, "-m", "--map") {
        if f.map.is_some() {
            Err(CliError::DuplicateOption(opt.to_owned()))
        } else {
            match next_arg(args, i, opt) {
                Ok(v) => {
                    f.map = Some(v);
                    Ok((f, 2))
                },
                Err(e) => Err(e),
            }
        }
    } else if is_named(opt, "-i", "--input") {
        if f.input.is_some() {
            Err(CliError::DuplicateOption(opt.to_owned()))
        } else {
            match next_arg(args, i, opt) {
                Ok(v) => {
                    f.input = Some(v);
                    Ok((f, 2))
                },
                Err(e) => Err(e),
            }
        }
    } else if is_named(opt, "-o", "--output") {
        if f.output.is_some() {
            Err(CliError::DuplicateOption(opt.to_owned()))
        } else {
            match next_arg(args, i, opt) {
                Ok(v) => {
                    f.output = Some(v);
                    Ok((f, 2))
                },
                Err(e) => Err(e),
            }
        }
    } else {
        Err(CliError::UnknownOption(opt.to_owned()))
    }
}

fn settle(f: Flags) -> (r: Result<Options, CliError>)
    ensures
        match settled(f@) {
            Ok(o) => r matches Ok(x) && x@ == o,
            Err(e) => r matches Err(x) && x@ == e,
        },
{
    let Flags {
        input,
        output,
        map,
        package_manager,
        es6_syntax,
        es6_syntax_everywhere,
        map_inline,
        no_map,
        watch,
        quiet_watch,
        external,
    } = f;
    let mut choices: u8 = 0;
    if map_inline {
        choices += 1;
    }
    if no_map {
        choices += 1;
    }
    if map.is_some() {
        choices += 1;
    }
    if choices > 1 {
        return Err(
            CliError::BadUsage("--map-inline, --map <file>, and --no-map are mutually exclusive"),
        );
    }
    let input = match input {
        Some(i) => i,
        None => {
            return Err(CliError::MissingFileName);
        },
    };
    let output = match output {
        Some(o) => o,
        None => "-".to_owned(),
    };
    let map_output = if map_inline {
        SourceMapOutput::Inline
    } else if no_map {
        SourceMapOutput::Suppressed
    } else {
        match map {
            Some(path) => SourceMapOutput::File(path, output.clone()),
            None => {
                if str_eq(output.as_str(), "-") {
                    SourceMapOutput::Suppressed
                } else {
                    let mut buf = output.clone();
                    buf.append(".map");
                    SourceMapOutput::File(buf, output.clone())
                }
            },
        }
    };
    Ok(
        Options {
            input,
            output,
            map_output,
            input_options: InputOptions {
                package_manager,
                es6_syntax,
                es6_syntax_everywhere,
                external,
            },
            watch,
            quiet_watch,
        },
    )
}

/// Reads the arguments of a command line.
pub fn parse_args(args: &Vec<Arg>) -> (r: Result<Options, CliError>)
    ensures
        match parsed(args.deep_view()) {
            Ok(o) => r matches Ok(x) && x@ == o,
            Err(e) => r matches Err(x) && x@ == e,
        },
{
    let mut f = Flags {
        input: None,
        output: None,
        map: None,
        package_manager: PackageManager::Npm,
        es6_syntax: false,
        es6_syntax_everywhere: false,
        map_inline: false,
        no_map: false,
        watch: false,
        quiet_watch: false,
        external: Vec::new(),
    };
    assert(f.external.deep_view() =~= Seq::<Seq<char>>::empty());
    let ghost views = args.deep_view();
    let mut i: usize = 0;
    while i < args.len()
        invariant
            i <= args@.len(),
            views == args.deep_view(),
            views.len() == args@.len(),
            flags_from(views, i as nat, f@) == flags_from(views, 0, no_flags()),
        decreases args@.len() - i,
    {
        assert(views[i as int] == args@[i as int]@);
        match &args[i] {
            Arg::Pos(a) => {
                if f.input.is_none() {
                    f.input = Some(a.clone());
                } else if f.output.is_none() {
                    f.output = Some(a.clone());
                } else {
                    return Err(CliError::UnexpectedArg(a.clone()));
                }
                i += 1;
            },
            Arg::Opt(opt) => {
                match take_option(args, i, opt.as_str(), f) {
                    Ok((g, n)) => {
                        f = g;
                        i += n;
                    },
                    Err(e) => {
                        return Err(e);
                    },
                }
            },
        }
    }
    settle(f)
}

/// The path of the main module that a resolution names, if it names one.
pub open spec fn main_of(r: ResolvedView) -> Result<Seq<char>, CliErrorView> {
    match r {
        ResolvedView::External => Err(CliErrorView::ExternalMain),
        ResolvedView::Ignore => Err(CliErrorView::IgnoredMain),
        ResolvedView::Normal(path) => Ok(path),
    }
}

/// The path of the main module that `resolved` names.
pub fn entry_point(resolved: Resolved) -> (r: Result<String, CliError>)
    ensures
        match main_of(resolved@) {
            Ok(p) => r matches Ok(x) && x@ == p,
            Err(e) => r matches Err(x) && x@ == e,
        },
{
    match resolved {
        Resolved::External => Err(CliError::ExternalMain),
        Resolved::Ignore => Err(CliError::IgnoredMain),
        Resolved::Normal(path) => Ok(path),
    }
}

/// The name of the program.
pub open spec fn app_name() -> Seq<char> {
    "pax"@
}

/// The name of the executable.
pub open spec fn exe_name() -> Seq<char> {
    "px"@
}

/// The version of the program.
pub open spec fn app_version() -> Seq<char> {
    "0.4.0"@
}

/// How the program is called.
pub open spec fn usage() -> Seq<char> {
    "Usage: "@ + exe_name() + " [options] <input> [output]\n       "@ + exe_name()
        + " [-h | --help | -v | --version]"@
}

/// The program and its version.
pub open spec fn version() -> Seq<char> {
    app_name() + " v"@ + app_version()
}

/// What the options mean.
pub open spec fn options_help() -> Seq<char> {
    "Options:
    -i, --input <input>
        Use <input> as the main module.

    -o, --output <output>
        Write bundle to <output> and source map to <output>.map.
        Default: '-' for stdout.

    -m, --map <map>
        Output source map to <map>.

    -I, --map-inline
        Output source map inline as data: URI.

    -M, --no-map
        Suppress source map output when it would normally be implied.

    -w, --watch
        Watch for changes to <input> and its dependencies.

    -W, --quiet-watch
        Don't emit a bell character for errors that occur while watching.
        Implies --watch.

    -e, --es-syntax
        Support .mjs files with ECMAScript module syntax:

            import itt from 'itt'
            export const greeting = 'Hello, world!'

        Instead of CommonJS require syntax:

            const itt = require('itt')
            exports.greeting = 'Hello, world!'

        .mjs (ESM) files can import .js (CJS) files, in which case the
        namespace object has a single `default` binding which reflects the
        value of `module.exports`. CJS files can require ESM files, in which
        case the resultant object is the namespace object.

    -E, --es-syntax-everywhere
        Implies --es-syntax. Allow ECMAScript module syntax in .js files.
        CJS-style `require()` calls are also allowed.

    -x, --external <module1,module2,...>
        Don't resolve or include modules named <module1>, <module2>, etc.;
        leave them as require('<module>') references in the bundle. Specifying
        a path instead of a module name does nothing.

    --external-core
        Ignore references to node.js core modules like 'events' and leave them
        as require('<module>') references in the bundle.

    -b, --for-bower
        Use .bower.json instead of package.json

    --for-browser
        Perform substitutions specified by the `browser` field in package.json.
        This is always done.

    -h, --help
        Print this message.

    -v, --version
        Print version information.
"@
}

/// The help text: the version, the usage, and the options.
pub open spec fn help() -> Seq<char> {
    version() + "\n\n"@ + usage() + "\n\n"@ + options_help()
}

/// Appends how the program is called.
pub fn write_usage(f: &mut String)
    ensures
        final(f)@ == old(f)@ + usage(),
{
    f.append("Usage: ");
    f.append("px");
    f.append(" [options] <input> [output]\n       ");
    f.append("px");
    f.append(" [-h | --help | -v | --version]");
    assert(f@ =~= old(f)@ + usage());
}

/// Appends the program and its version.
pub fn write_version(f: &mut String)
    ensures
        final(f)@ == old(f)@ + version(),
{
    f.append("pax");
    f.append(" v");
    f.append("0.4.0");
    assert(f@ =~= old(f)@ + version());
}

/// Appends the help text.
pub fn write_help(f: &mut String)
    ensures
        final(f)@ == old(f)@ + help(),
{
    write_version(f);
    f.append("\n\n");
    write_usage(f);
    f.append("\n\n");
    f.append(
        "Options:
    -i, --input <input>
        Use <input> as the main module.

    -o, --output <output>
        Write bundle to <output> and source map to <output>.map.
        Default: '-' for stdout.

    -m, --map <map>
        Output source map to <map>.

    -I, --map-inline
        Output source map inline as data: URI.

    -M, --no-map
        Suppress source map output when it would normally be implied.

    -w, --watch
        Watch for changes to <input> and its dependencies.

    -W, --quiet-watch
        Don't emit a bell character for errors that occur while watching.
        Implies --watch.

    -e, --es-syntax
        Support .mjs files with ECMAScript module syntax:

            import itt from 'itt'
            export const greeting = 'Hello, world!'

        Instead of CommonJS require syntax:

            const itt = require('itt')
            exports.greeting = 'Hello, world!'

        .mjs (ESM) files can import .js (CJS) files, in which case the
        namespace object has a single `default` binding which reflects the
        value of `module.exports`. CJS files can require ESM files, in which
        case the resultant object is the namespace object.

    -E, --es-syntax-everywhere
        Implies --es-syntax. Allow ECMAScript module syntax in .js files.
        CJS-style `require()` calls are also allowed.

    -x, --external <module1,module2,...>
        Don't resolve or include modules named <module1>, <module2>, etc.;
        leave them as require('<module>') references in the bundle. Specifying
        a path instead of a module name does nothing.

    --external-core
        Ignore references to node.js core modules like 'events' and leave them
        as require('<module>') references in the bundle.

    -b, --for-bower
        Use .bower.json instead of package.json

    --for-browser
        Perform substitutions specified by the `browser` field in package.json.
        This is always done.

    -h, --help
        Print this message.

    -v, --version
        Print version information.
",
    );
    assert(f@ =~= old(f)@ + help());
}

/// A location as an error shows it: line and column, counted from one.
pub open spec fn loc_text(l: Loc) -> Seq<char> {
    decimal((l.row + 1) as nat) + ","@ + decimal((l.col + 1) as nat)
}

/// A region as an error shows it: the file, where the region starts, and
/// where it ends unless that is the same place.
pub open spec fn span_text(s: SpanView) -> Seq<char> {
    s.file_name + ":"@ + loc_text(s.start) + (if s.start.row == s.end.row {
        if s.start.col == s.end.col {
            Seq::empty()
        } else {
            "-"@ + decimal((s.end.col + 1) as nat)
        }
    } else {
        "-"@ + loc_text(s.end)
    })
}

/// What is wrong with a string literal.
pub open spec fn str_lit_text(e: StrLitError) -> Seq<char> {
    match e {
        StrLitError::ExpectedEscape => "expected escape sequence, but got end of string"@,
        StrLitError::ExpectedHex2 => "expected two hexadecimal characters after '\\x'"@,
        StrLitError::NotHex2 => "expected two hexadecimal characters after '\\x'"@,
        StrLitError::ExpectedRbrace => "expected `}` after `\\u{`"@,
        StrLitError::NotHex => "expected hexadecimal number in `\\u{…}` escape"@,
        StrLitError::NotChar =>
            "hexadecimal number in `\\u{…}` escape is not a Unicode Scalar Value"@,
        StrLitError::ExpectedHex4 => "expected four hexadecimal characters or '{…}' after '\\u'"@,
        StrLitError::NotHex4 => "expected four hexadecimal characters or '{…}' after '\\u'"@,
    }
}

/// What is wrong in a module.
pub open spec fn kind_text(k: ErrorKindView) -> Seq<char> {
    match k {
        ErrorKindView::Expected(s) => "expected "@ + s,
        ErrorKindView::ParseStrLitError(e) => "invalid string literal: "@ + str_lit_text(e),
        ErrorKindView::UnsupportedStrLit => "unsupported string literal"@,
    }
}

/// What is wrong with the text of a module.
pub open spec fn lex_kind_text(k: LexErrorKind) -> Seq<char> {
    match k {
        LexErrorKind::Unexpected(c) => "unexpected "@ + seq![c],
        LexErrorKind::ExpectedExponent => "expected exponent in numeric literal"@,
        LexErrorKind::UnterminatedTemplateLiteral => "unterminated template literal"@,
        LexErrorKind::UnterminatedStringLiteral => "unterminated string literal"@,
        LexErrorKind::UnterminatedRegExpLiteral => "unterminated regular expression literal"@,
        LexErrorKind::UnterminatedMultilineComment => "unterminated multiline comment"@,
        LexErrorKind::UnmatchedRbrace => "unmatched '}'"@,
    }
}

/// What an error says.
pub open spec fn message_of(e: CliErrorView) -> Seq<char> {
    match e {
        CliErrorView::Help => help(),
        CliErrorView::Version => version(),
        CliErrorView::MissingFileName => usage(),
        CliErrorView::ExternalMain => "main module is --external"@,
        CliErrorView::IgnoredMain => "main module is ignored by a browser field substitution"@,
        CliErrorView::DuplicateOption(opt) => "option "@ + opt + " specified more than once"@,
        CliErrorView::MissingOptionValue(opt) => "missing value for option "@ + opt,
        CliErrorView::UnknownOption(opt) => "unknown option "@ + opt,
        CliErrorView::UnexpectedArg(arg) => "unexpected argument "@ + arg,
        CliErrorView::BadUsage(arg) => arg,
        CliErrorView::RequireRoot { context, path } => match context {
            None => "main module is root path "@ + path,
            Some(c) => "require of root path "@ + path + " in "@ + c,
        },
        CliErrorView::EmptyModuleName { context } => "require('') in "@ + context,
        CliErrorView::ModuleNotFound { context, name } => "module '"@ + name + "' not found in "@
            + context,
        CliErrorView::MainNotFound { name } => "main module '"@ + name + "' not found"@,
        CliErrorView::InvalidUtf8 { context, err } => "in "@ + context + ": "@ + err,
        CliErrorView::Io(inner) => inner,
        CliErrorView::Json(inner) => inner,
        CliErrorView::Notify(inner) => inner,
        CliErrorView::Es6(inner) => kind_text(inner.kind) + " at "@ + span_text(inner.span),
        CliErrorView::Lex(inner) => lex_kind_text(inner.kind) + " at "@ + span_text(inner.span),
        CliErrorView::ParseStrLit(inner) => str_lit_text(inner),
        CliErrorView::Box(inner) => inner,
    }
}

fn push_loc(f: &mut String, l: Loc)
    ensures
        final(f)@ == old(f)@ + loc_text(l),
{
    push_decimal_wide(f, l.row as u128 + 1);
    f.append(",");
    push_decimal_wide(f, l.col as u128 + 1);
    assert(f@ =~= old(f)@ + loc_text(l));
}

fn push_span(f: &mut String, s: &Span)
    ensures
        final(f)@ == old(f)@ + span_text(s@),
{
    f.append(s.file_name.as_str());
    f.append(":");
    push_loc(f, s.start);
    if s.start.row == s.end.row {
        if s.start.col != s.end.col {
            f.append("-");
            push_decimal_wide(f, s.end.col as u128 + 1);
        }
    } else {
        f.append("-");
        push_loc(f, s.end);
    }
    assert(f@ =~= old(f)@ + span_text(s@));
}

/// What is wrong with a string literal, in the words of esparse: the text
/// that its `ParseStrLitError` of the same name shows itself as. These
/// texts are taken to be those of `str_lit_text`.
#[verifier::external_body]
fn str_lit_message(e: StrLitError) -> (m: String)
    ensures
        m@ == str_lit_text(e),
{
    let theirs = match e {
        StrLitError::ExpectedEscape => esparse::lex::ParseStrLitError::ExpectedEscape,
        StrLitError::ExpectedHex2 => esparse::lex::ParseStrLitError::ExpectedHex2,
        StrLitError::NotHex2 => esparse::lex::ParseStrLitError::NotHex2,
        StrLitError::ExpectedRbrace => esparse::lex::ParseStrLitError::ExpectedRbrace,
        StrLitError::NotHex => esparse::lex::ParseStrLitError::NotHex,
        StrLitError::NotChar => esparse::lex::ParseStrLitError::NotChar,
        StrLitError::ExpectedHex4 => esparse::lex::ParseStrLitError::ExpectedHex4,
        StrLitError::NotHex4 => esparse::lex::ParseStrLitError::NotHex4,
    };
    theirs.to_string()
}

/// What is wrong with the text of a module, in the words of esparse: the
/// text that its `ErrorKind` of the same name shows itself as. These texts
/// are taken to be those of `lex_kind_text`.
#[verifier::external_body]
fn lex_kind_message(k: LexErrorKind) -> (m: String)
    ensures
        m@ == lex_kind_text(k),
{
    let theirs = match k {
        LexErrorKind::Unexpected(c) => esparse::lex::ErrorKind::Unexpected(c),
        LexErrorKind::ExpectedExponent => esparse::lex::ErrorKind::ExpectedExponent,
        LexErrorKind::UnterminatedTemplateLiteral => esparse::lex::ErrorKind::UnterminatedTemplateLiteral,
        LexErrorKind::UnterminatedStringLiteral => esparse::lex::ErrorKind::UnterminatedStringLiteral,
        LexErrorKind::UnterminatedRegExpLiteral => esparse::lex::ErrorKind::UnterminatedRegExpLiteral,
        LexErrorKind::UnterminatedMultilineComment => esparse::lex::ErrorKind::UnterminatedMultilineComment,
        LexErrorKind::UnmatchedRbrace => esparse::lex::ErrorKind::UnmatchedRbrace,
    };
    theirs.to_string()
}

impl Error {
    /// What the error says.
    pub fn message(&self) -> (m: String)
        ensures
            m@ == kind_text(self@.kind) + " at "@ + span_text(self@.span),
    {
        let mut f = String::new();
        match self.kind {
            ErrorKind::Expected(s) => {
                f.append("expected ");
                f.append(s);
            },
            ErrorKind::ParseStrLitError(e) => {
                f.append("invalid string literal: ");
                f.append(str_lit_message(e).as_str());
            },
            ErrorKind::UnsupportedStrLit => {
                f.append("unsupported string literal");
            },
        }
        assert(f@ =~= kind_text(self@.kind));
        f.append(" at ");
        push_span(&mut f, &self.span);
        f
    }
}

impl LexError {
    /// What the error says.
    pub fn message(&self) -> (m: String)
        ensures
            m@ == lex_kind_text(self@.kind) + " at "@ + span_text(self@.span),
    {
        let mut f = lex_kind_message(self.kind);
        assert(f@ =~= lex_kind_text(self@.kind));
        f.append(" at ");
        push_span(&mut f, &self.span);
        f
    }
}

impl CliError {
    /// What the error says.
    pub fn message(&self) -> (m: String)
        ensures
            m@ == message_of(self@),
    {
        let mut f = String::new();
        match self {
            CliError::Help => {
                write_help(&mut f);
            },
            CliError::Version => {
                write_version(&mut f);
            },
            CliError::MissingFileName => {
                write_usage(&mut f);
            },
            CliError::ExternalMain => {
                f.append("main module is --external");
            },
            CliError::IgnoredMain => {
                f.append("main module is ignored by a browser field substitution");
            },
            CliError::DuplicateOption(opt) => {
                f.append("option ");
                f.append(opt.as_str());
                f.append(" specified more than once");
            },
            CliError::MissingOptionValue(opt) => {
                f.append("missing value for option ");
                f.append(opt.as_str());
            },
            CliError::UnknownOption(opt) => {
                f.append("unknown option ");
                f.append(opt.as_str());
            },
            CliError::UnexpectedArg(arg) => {
                f.append("unexpected argument ");
                f.append(arg.as_str());
            },
            CliError::BadUsage(arg) => {
                f.append(arg);
            },
            CliError::RequireRoot { context, path } => {
                match context {
                    None => {
                        f.append("main module is root path ");
                        f.append(path.as_str());
                    },
                    Some(c) => {
                        f.append("require of root path ");
                        f.append(path.as_str());
                        f.append(" in ");
                        f.append(c.as_str());
                    },
                }
            },
            CliError::EmptyModuleName { context } => {
                f.append("require('') in ");
                f.append(context.as_str());
            },
            CliError::ModuleNotFound { context, name } => {
                f.append("module '");
                f.append(name.as_str());
                f.append("' not found in ");
                f.append(context.as_str());
            },
            CliError::MainNotFound { name } => {
                f.append("main module '");
                f.append(name.as_str());
                f.append("' not found");
            },
            CliError::InvalidUtf8 { context, err } => {
                f.append("in ");
                f.append(context.as_str());
                f.append(": ");
                f.append(err.as_str());
            },
            CliError::Io(inner) => {
                f.append(inner.as_str());
            },
            CliError::Json(inner) => {
                f.append(inner.as_str());
            },
            CliError::Notify(inner) => {
                f.append(inner.as_str());
            },
            CliError::Es6(inner) => {
                f.append(inner.message().as_str());
            },
            CliError::Lex(inner) => {
                f.append(inner.message().as_str());
            },
            CliError::ParseStrLit(inner) => {
                f.append(str_lit_message(*inner).as_str());
            },
            CliError::Box(inner) => {
                f.append(inner.as_str());
            },
        }
        assert(f@ =~= message_of(self@));
        f
    }

    /// Whether the error is one of those that are printed as they are,
    /// without the name of the program before them.
    pub fn is_plain(&self) -> (r: bool)
        ensures
            r == (self@ is Help || self@ is Version || self@ is MissingFileName),
    {
        match self {
            CliError::Help | CliError::Version | CliError::MissingFileName => true,
            _ => false,
        }
    }
}

/// The paths of `new` that are not in `old`, in their order.
pub open spec fn fresh(new: Seq<Seq<char>>, old: Seq<Seq<char>>, k: nat) -> Seq<Seq<char>>
    decreases k,
{
    if k == 0 {
        Seq::empty()
    } else if old.contains(new[k - 1]) {
        fresh(new, old, (k - 1) as nat)
    } else {
        fresh(new, old, (k - 1) as nat).push(new[k - 1])
    }
}

/// The paths of `new` that are not in `old`: what to begin to watch after a
/// build, with the modules of the build as `new` and those of the build
/// before as `old`; and what to watch no longer, the other way round.
pub fn watch_changes(new: &Vec<String>, old: &Vec<String>) -> (r: Vec<String>)
    ensures
        r.deep_view() == fresh(new.deep_view(), old.deep_view(), new@.len() as nat),
{
    let mut r: Vec<String> = Vec::new();
    let mut k: usize = 0;
    assert(r.deep_view() =~= fresh(new.deep_view(), old.deep_view(), 0));
    while k < new.len()
        invariant
            k <= new@.len(),
            new.deep_view().len() == new@.len(),
            r.deep_view() == fresh(new.deep_view(), old.deep_view(), k as nat),
        decreases new@.len() - k,
    {
        assert(new.deep_view()[k as int] == new@[k as int]@);
        let mut found = false;
        let mut j: usize = 0;
        while j < old.len() && !found
            invariant
                j <= old@.len(),
                old.deep_view().len() == old@.len(),
                found ==> old.deep_view().contains(new@[k as int]@),
                !found ==> forall|e: int| 0 <= e < j ==> old.deep_view()[e] != new@[k as int]@,
                k < new@.len(),
            decreases old@.len() - j + if found { 0int } else { 1int },
        {
            assert(old.deep_view()[j as int] == old@[j as int]@);
            if str_eq(old[j].as_str(), new[k].as_str()) {
                found = true;
            } else {
                j += 1;
            }
        }
        if !found {
            let ghost before = r.deep_view();
            r.push(new[k].clone());
            assert(r.deep_view() =~= before.push(new@[k as int]@));
        }
        k += 1;
    }
    r
}

} // verus!
