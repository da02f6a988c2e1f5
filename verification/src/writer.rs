//! Writing the bundle: the modules in the order of their paths, each in a
//! function of its own, between a fixed head and tail; and the source map
//! that leads from the lines of the bundle back to the lines of the modules.

use vstd::prelude::*;
use vstd::string::StringSliceAdditionalSpecFns;
use crate::modules::{Dep, DepView, Module, ModuleView};
use crate::path_ext::{
    before,
    last_text,
    lemma_before_asymmetric,
    lemma_not_before_transitive,
    parent,
    path_last,
    path_lt,
    path_parent,
    relative,
    relative_from,
    strip_prefix,
    stripped,
    text_before,
    text_lt,
};
use crate::resolver::{Resolved, ResolvedView};
use crate::source_maps::{SourceMapOutput, SourceMapOutputView};
use crate::text::push_char;
use crate::vlq::{digit, encoding, groups, Vlq};
use crate::{
    count,
    count_upto,
    hex_digit,
    json_quoted,
    lemma_count_bound,
    lemma_count_concat,
    lemma_count_none,
    lines,
    newline_count,
    newlines,
    to_quoted_json_string,
};

verus! {

/// Whether a byte stands for itself in an identifier: a letter, a digit or
/// `_`.
pub open spec fn is_plain(b: u8) -> bool {
    b == 95 || (97 <= b && b <= 122) || (65 <= b && b <= 90) || (48 <= b && b <= 57)
}

/// A byte as part of an identifier: itself, or `$` and its two hexadecimal
/// digits.
pub open spec fn escaped_byte(b: u8) -> Seq<char> {
    if is_plain(b) {
        seq![b as char]
    } else {
        seq!['$', hex_digit(b as int / 16), hex_digit(b as int % 16)]
    }
}

/// The first `k` bytes as part of an identifier.
pub open spec fn escaped_upto(bytes: Seq<u8>, k: nat) -> Seq<char>
    decreases k,
{
    if k == 0 {
        Seq::empty()
    } else {
        escaped_upto(bytes, (k - 1) as nat) + escaped_byte(bytes[k - 1])
    }
}

/// The identifier of the function that holds the module of a path: `file_`
/// and the bytes of the path.
pub open spec fn name_of(path: Seq<char>) -> Seq<char> {
    "file_"@ + escaped_upto(vstd::utf8::encode_utf8(path), vstd::utf8::encode_utf8(path).len())
}

/// A path as the bundle names it: without the directory `dir` at its start,
/// where it lies in it.
pub open spec fn under(path: Seq<char>, dir: Seq<char>) -> Seq<char> {
    match stripped(path, dir) {
        Some(rest) => rest,
        None => path,
    }
}

/// How many of the first `k` dependencies show in the bundle: all but the
/// external ones.
pub open spec fn shown(deps: Seq<DepView>, k: nat) -> nat
    decreases k,
{
    if k == 0 {
        0
    } else {
        shown(deps, (k - 1) as nat) + if deps[k - 1].resolved is External {
            0nat
        } else {
            1nat
        }
    }
}

/// The entry of a dependency that shows: the specifier, and the function of
/// the module that it resolved to, or the empty module.
pub open spec fn dep_entry(d: DepView, dir: Seq<char>) -> Seq<char> {
    match d.resolved {
        ResolvedView::External => Seq::empty(),
        ResolvedView::Ignore => json_quoted(d.name) + ":Shim.ignored"@,
        ResolvedView::Normal(p) => json_quoted(d.name) + ":"@ + name_of(under(p, dir)),
    }
}

/// The entries of the first `k` dependencies, with commas between them.
pub open spec fn dep_entries(deps: Seq<DepView>, dir: Seq<char>, k: nat) -> Seq<char>
    decreases k,
{
    if k == 0 {
        Seq::empty()
    } else if deps[k - 1].resolved is External {
        dep_entries(deps, dir, (k - 1) as nat)
    } else {
        dep_entries(deps, dir, (k - 1) as nat) + (if shown(deps, (k - 1) as nat) > 0 {
            ","@
        } else {
            Seq::empty()
        }) + dep_entry(deps[k - 1], dir)
    }
}

/// Where a dependency of the name `name` goes into `sorted`: before the
/// first of its members, from index `k` on, that the name comes before.
pub open spec fn place(sorted: Seq<DepView>, name: Seq<char>, k: nat) -> nat
    decreases sorted.len() - k,
{
    if k >= sorted.len() {
        sorted.len()
    } else if text_lt(name, sorted[k as int].name, 0) {
        k
    } else {
        place(sorted, name, k + 1)
    }
}

/// The first `k` dependencies in the order of their names.
pub open spec fn by_name_upto(deps: Seq<DepView>, k: nat) -> Seq<DepView>
    decreases k,
{
    if k == 0 {
        Seq::empty()
    } else {
        let sorted = by_name_upto(deps, (k - 1) as nat);
        sorted.insert(place(sorted, deps[k - 1].name, 0) as int, deps[k - 1])
    }
}

/// The dependencies in the order of their names, character by character.
pub open spec fn by_name(deps: Seq<DepView>) -> Seq<DepView> {
    by_name_upto(deps, deps.len())
}

/// The object that maps the specifiers of a module to the modules that they
/// stand for, in the order of the specifiers.
pub open spec fn deps_object(deps: Seq<DepView>, dir: Seq<char>) -> Seq<char> {
    "{"@ + dep_entries(by_name(deps), dir, by_name(deps).len()) + "}"@
}

/// Whether a body needs a line feed after it: it is not empty and does not
/// end in a line terminator.
pub open spec fn needs_newline(body: Seq<char>) -> bool {
    body.len() > 0 && body.last() != '\n' && body.last() != '\r' && body.last() != '\u{2028}'
        && body.last() != '\u{2029}'
}

/// A module with the path that the bundle knows it by.
#[derive(Debug)]
pub struct Bundled {
    pub file: String,
    pub module: Module,
}

pub struct BundledView {
    pub file: Seq<char>,
    pub module: ModuleView,
}

impl View for Bundled {
    type V = BundledView;

    open spec fn view(&self) -> BundledView {
        BundledView { file: self.file@, module: self.module@ }
    }
}

impl DeepView for Bundled {
    type V = BundledView;

    open spec fn deep_view(&self) -> BundledView {
        self@
    }
}

/// The line that opens the function of a module.
pub open spec fn opening(m: BundledView, dir: Seq<char>) -> Seq<char> {
    let id = name_of(m.file);
    "\n  Shim.files["@ + json_quoted(m.file) + "] = "@ + id + "; "@ + id + ".deps = "@ + deps_object(
        m.module.deps,
        dir,
    ) + "; "@ + id + ".filename = "@ + json_quoted(m.file) + "; function "@ + id
        + "(module, exports, require, __filename, __dirname, __import_meta) {"@ + "\n"@
}

/// The text of a module inside its function: the prefix on lines of its
/// own, the body, and the suffix on the line after the body.
pub open spec fn wrapped(m: ModuleView) -> Seq<char> {
    (if m.source.prefix.len() > 0 {
        m.source.prefix + "\n"@
    } else {
        Seq::empty()
    }) + m.source.body + (if needs_newline(m.source.body) {
        "\n"@
    } else {
        Seq::empty()
    }) + m.source.suffix
}

/// A module in the bundle.
pub open spec fn chunk(m: BundledView, dir: Seq<char>) -> Seq<char> {
    opening(m, dir) + wrapped(m.module) + "}"@
}

/// Where `x` goes into `order`: before the first of its members, from
/// index `k` on, that its path comes before.
pub open spec fn slot(order: Seq<int>, files: Seq<Seq<char>>, x: int, k: nat) -> nat
    decreases order.len() - k,
{
    if k >= order.len() {
        order.len()
    } else if before(files[x], files[order[k as int]]) {
        k
    } else {
        slot(order, files, x, k + 1)
    }
}

/// The first `k` indices in the order of their paths.
pub open spec fn sorted_upto(files: Seq<Seq<char>>, k: nat) -> Seq<int>
    decreases k,
{
    if k == 0 {
        Seq::empty()
    } else {
        let order = sorted_upto(files, (k - 1) as nat);
        order.insert(slot(order, files, k - 1, 0) as int, k - 1)
    }
}

/// The indices of the paths in the order of the paths.
pub open spec fn sorted(files: Seq<Seq<char>>) -> Seq<int> {
    sorted_upto(files, files.len())
}

/// No member of `order` comes before the one before it, all are indices
/// below `n`, and none occurs twice.
pub open spec fn ordered(order: Seq<int>, files: Seq<Seq<char>>, n: int) -> bool {
    &&& forall|i: int| 0 <= i < order.len() ==> 0 <= #[trigger] order[i] < n
    &&& forall|i: int, j: int|
        0 <= i < j < order.len() ==> (#[trigger] order[i]) != (#[trigger] order[j])
    &&& forall|i: int|
        0 <= i && i + 1 < order.len() ==> !before(
            files[order[i + 1]],
            files[#[trigger] order[i]],
        )
}

/// The paths of the modules.
pub open spec fn files_of(modules: Seq<BundledView>) -> Seq<Seq<char>> {
    Seq::new(modules.len(), |i: int| modules[i].file)
}

/// The first `k` modules of `order` in the bundle.
pub open spec fn chunks(modules: Seq<BundledView>, order: Seq<int>, dir: Seq<char>, k: nat) -> Seq<
    char,
>
    decreases k,
{
    if k == 0 {
        Seq::empty()
    } else {
        chunks(modules, order, dir, (k - 1) as nat) + chunk(modules[order[k - 1]], dir)
    }
}

/// The lines that start the entry module.
pub open spec fn closing(entry: Seq<char>) -> Seq<char> {
    "\n  Shim.main = "@ + name_of(last_text(entry)) + "; Shim.makeRequire(null)()"@ + "\n"@
        + "  if (typeof module !== 'undefined') module.exports = Shim.main.module && Shim.main.module.exports"@
        + "\n"@
}

/// The lines that the prefix of a module takes: none where it is empty.
pub open spec fn prefix_lines(prefix: Seq<char>) -> nat {
    if prefix.len() > 0 {
        lines(prefix)
    } else {
        0
    }
}

/// The line that the line feed after a body takes, where it needs one.
pub open spec fn trailing(body: Seq<char>) -> nat {
    if needs_newline(body) {
        1
    } else {
        0
    }
}

/// The lines that a module takes in the bundle: the line that opens its
/// function, its prefix, its body, the line feed that the body may need,
/// and what of its suffix goes beyond one line.
pub open spec fn module_lines(m: ModuleView) -> nat {
    (1 + prefix_lines(m.source.prefix) + lines(m.source.body) + trailing(m.source.body) + lines(
        m.source.suffix,
    ) - 1) as nat
}

/// The lines that the first `k` modules of `order` take in the bundle.
pub open spec fn modules_lines(modules: Seq<BundledView>, order: Seq<int>, k: nat) -> nat
    decreases k,
{
    if k == 0 {
        0
    } else {
        modules_lines(modules, order, (k - 1) as nat) + module_lines(modules[order[k - 1]].module)
    }
}

/// A text without line feeds counts none.
pub proof fn lemma_plain(s: Seq<char>)
    requires
        forall|i: int| 0 <= i < s.len() ==> s[i] != '\n',
    ensures
        newlines(s) == 0,
{
    crate::lemma_count_none(s, '\n', s.len());
}

/// The fixed pieces of the line that opens a function hold one line feed
/// at the start and one at the end.
pub proof fn lemma_opening_pieces()
    ensures
        newlines("\n  Shim.files["@) == 1,
        newlines("] = "@) == 0,
        newlines("; "@) == 0,
        newlines(".deps = "@) == 0,
        newlines(".filename = "@) == 0,
        newlines("; function "@) == 0,
        newlines("(module, exports, require, __filename, __dirname, __import_meta) {"@) == 0,
        newlines("\n"@) == 1,
        newlines("}"@) == 0,
{
    reveal_strlit("\n  Shim.files[");
    reveal_strlit("] = ");
    reveal_strlit("; ");
    reveal_strlit(".deps = ");
    reveal_strlit(".filename = ");
    reveal_strlit("; function ");
    reveal_strlit("(module, exports, require, __filename, __dirname, __import_meta) {");
    reveal_strlit("\n");
    reveal_strlit("}");
    reveal_with_fuel(crate::count_upto, 16);
    lemma_plain("(module, exports, require, __filename, __dirname, __import_meta) {"@);
}

/// The fixed pieces of the object of dependencies hold no line feed.
pub proof fn lemma_deps_pieces()
    ensures
        newlines("{"@) == 0,
        newlines("}"@) == 0,
        newlines(","@) == 0,
        newlines(":"@) == 0,
        newlines(":Shim.ignored"@) == 0,
        newlines("file_"@) == 0,
{
    reveal_strlit("{");
    reveal_strlit("}");
    reveal_strlit(",");
    reveal_strlit(":");
    reveal_strlit(":Shim.ignored");
    reveal_strlit("file_");
    reveal_with_fuel(crate::count_upto, 16);
}

/// The fixed pieces of the lines that start the entry module hold three
/// line feeds.
pub proof fn lemma_closing_pieces()
    ensures
        newlines("\n  Shim.main = "@) == 1,
        newlines("; Shim.makeRequire(null)()"@) == 0,
        newlines(
            "  if (typeof module !== 'undefined') module.exports = Shim.main.module && Shim.main.module.exports"@,
        ) == 0,
        newlines("\n"@) == 1,
{
    reveal_strlit("\n  Shim.main = ");
    reveal_strlit("; Shim.makeRequire(null)()");
    reveal_strlit(
        "  if (typeof module !== 'undefined') module.exports = Shim.main.module && Shim.main.module.exports",
    );
    reveal_strlit("\n");
    reveal_with_fuel(crate::count_upto, 16);
    lemma_plain("; Shim.makeRequire(null)()"@);
    lemma_plain(
        "  if (typeof module !== 'undefined') module.exports = Shim.main.module && Shim.main.module.exports"@,
    );
}

/// The bytes of a path as part of an identifier hold no line feed.
pub proof fn lemma_escaped_plain(bytes: Seq<u8>, k: nat)
    requires
        k <= bytes.len(),
    ensures
        newlines(escaped_upto(bytes, k)) == 0,
    decreases k,
{
    if k > 0 {
        lemma_escaped_plain(bytes, (k - 1) as nat);
        lemma_plain(escaped_byte(bytes[k - 1]));
        crate::lemma_count_concat(
            escaped_upto(bytes, (k - 1) as nat),
            escaped_byte(bytes[k - 1]),
            '\n',
        );
    } else {
        lemma_plain(escaped_upto(bytes, 0));
    }
}

/// The identifier of a module holds no line feed.
pub proof fn lemma_name_plain(path: Seq<char>)
    ensures
        newlines(name_of(path)) == 0,
{
    lemma_deps_pieces();
    let bytes = vstd::utf8::encode_utf8(path);
    lemma_escaped_plain(bytes, bytes.len());
    crate::lemma_count_concat("file_"@, escaped_upto(bytes, bytes.len()), '\n');
}

/// Appends `piece` to `w`, and keeps count of the line feeds.
pub fn put(w: &mut String, piece: &str)
    ensures
        final(w)@ == old(w)@ + piece@,
        newlines(final(w)@) == newlines(old(w)@) + newlines(piece@),
{
    proof {
        crate::lemma_count_concat(w@, piece@, '\n');
    }
    w.append(piece);
}

/// Writes the identifier of the function that holds the module of `path`.
pub fn write_name_path(path: &str, result: &mut String)
    ensures
        final(result)@ == old(result)@ + name_of(path@),
{
    let bytes = path.as_bytes();
    result.append("file_");
    let ghost base = result@;
    let mut i: usize = 0;
    assert(base + escaped_upto(bytes@, 0) =~= base);
    while i < bytes.len()
        invariant
            i <= bytes@.len(),
            bytes@ == vstd::utf8::encode_utf8(path@),
            base == old(result)@ + "file_"@,
            result@ == base + escaped_upto(bytes@, i as nat),
        decreases bytes@.len() - i,
    {
        let b = bytes[i];
        if b == 95 || (97 <= b && b <= 122) || (65 <= b && b <= 90) || (48 <= b && b <= 57) {
            push_char(result, b as char);
        } else {
            push_char(result, '$');
            push_char(result, hex_char(b / 16));
            push_char(result, hex_char(b % 16));
        }
        i += 1;
        assert(result@ =~= base + escaped_upto(bytes@, i as nat));
    }
    assert(result@ =~= old(result)@ + name_of(path@));
}

fn hex_char(d: u8) -> (c: char)
    requires
        d < 16,
    ensures
        c == hex_digit(d as int),
{
    if d < 10 {
        (48u8 + d) as char
    } else {
        (87u8 + d) as char
    }
}

/// The identifier of the function that holds the module of `path`.
pub fn name_path(path: &str) -> (r: String)
    ensures
        r@ == name_of(path@),
        newlines(r@) == 0,
{
    proof {
        lemma_name_plain(path@);
    }
    let mut result = String::new();
    write_name_path(path, &mut result);
    assert(Seq::<char>::empty() + name_of(path@) =~= name_of(path@));
    result
}

/// A path as a JSON string literal.
pub fn js_path(path: &str) -> (r: String)
    ensures
        r@ == json_quoted(path@),
        crate::newlines(r@) == 0,
{
    to_quoted_json_string(path)
}

fn find_place(sorted: &Vec<Dep>, name: &str) -> (j: usize)
    ensures
        j <= sorted@.len(),
        j == place(sorted.deep_view(), name@, 0),
{
    let ghost s = sorted.deep_view();
    let mut j: usize = 0;
    while j < sorted.len()
        invariant
            j <= sorted@.len(),
            s == sorted.deep_view(),
            s.len() == sorted@.len(),
            place(s, name@, j as nat) == place(s, name@, 0),
        decreases sorted@.len() - j,
    {
        assert(s[j as int] == sorted@[j as int]@);
        if text_before(name, sorted[j].name.as_str()) {
            return j;
        }
        j += 1;
    }
    j
}

/// The dependencies in the order of their names.
pub fn sort_deps(deps: &Vec<Dep>) -> (r: Vec<Dep>)
    ensures
        r.deep_view() == by_name(deps.deep_view()),
{
    let ghost ds = deps.deep_view();
    let mut out: Vec<Dep> = Vec::new();
    let mut k: usize = 0;
    assert(out.deep_view() =~= by_name_upto(ds, 0));
    while k < deps.len()
        invariant
            k <= deps@.len(),
            ds == deps.deep_view(),
            ds.len() == deps@.len(),
            out.deep_view() == by_name_upto(ds, k as nat),
        decreases deps@.len() - k,
    {
        assert(ds[k as int] == deps@[k as int]@);
        let ghost sorted = out.deep_view();
        let j = find_place(&out, deps[k].name.as_str());
        let d = Dep { name: deps[k].name.clone(), resolved: deps[k].resolved.copy() };
        out.insert(j, d);
        assert(out.deep_view() =~= sorted.insert(j as int, ds[k as int]));
        k += 1;
    }
    out
}

/// The object that maps the specifiers of a module to the modules that they
/// stand for, as the bundle names them under the directory of the entry
/// point. The specifiers are written in their order, whatever the order
/// in which they were resolved.
pub fn stringify_deps(deps: &Vec<Dep>, entry_point: &str) -> (r: String)
    requires
        parent(entry_point@).is_some(),
    ensures
        r@ == deps_object(deps.deep_view(), parent(entry_point@).unwrap()),
        newlines(r@) == 0,
{
    let dir = match path_parent(entry_point) {
        Some(d) => d,
        None => String::new(),
    };
    let sorted = sort_deps(deps);
    write_deps(&sorted, dir.as_str())
}

fn write_deps(deps: &Vec<Dep>, dir: &str) -> (r: String)
    ensures
        r@ == "{"@ + dep_entries(deps.deep_view(), dir@, deps.deep_view().len()) + "}"@,
        newlines(r@) == 0,
{
    proof {
        lemma_deps_pieces();
    }
    let mut result = String::new();
    assert(newlines(result@) == 0) by {
        lemma_plain(result@);
    }
    put(&mut result, "{");
    let mut comma = false;
    let mut k: usize = 0;
    let ghost ds = deps.deep_view();
    assert("{"@ + dep_entries(ds, dir@, 0) =~= "{"@);
    assert(result@ =~= "{"@);
    while k < deps.len()
        invariant
            k <= deps@.len(),
            ds == deps.deep_view(),
            ds.len() == deps@.len(),
            result@ == "{"@ + dep_entries(ds, dir@, k as nat),
            newlines(result@) == 0,
            comma == (shown(ds, k as nat) > 0),
            newlines(","@) == 0,
            newlines(":"@) == 0,
            newlines(":Shim.ignored"@) == 0,
        decreases deps@.len() - k,
    {
        assert(ds[k as int] == deps@[k as int]@);
        match &deps[k].resolved {
            Resolved::External => {},
            Resolved::Ignore => {
                if comma {
                    put(&mut result, ",");
                }
                put(&mut result, to_quoted_json_string(deps[k].name.as_str()).as_str());
                put(&mut result, ":Shim.ignored");
                comma = true;
                assert(result@ =~= "{"@ + dep_entries(ds, dir@, (k + 1) as nat));
            },
            Resolved::Normal(path) => {
                if comma {
                    put(&mut result, ",");
                }
                put(&mut result, to_quoted_json_string(deps[k].name.as_str()).as_str());
                put(&mut result, ":");
                let name = match strip_prefix(path.as_str(), dir) {
                    Some(rest) => name_path(rest.as_str()),
                    None => name_path(path.as_str()),
                };
                put(&mut result, name.as_str());
                comma = true;
                assert(result@ =~= "{"@ + dep_entries(ds, dir@, (k + 1) as nat));
            },
        }
        k += 1;
    }
    put(&mut result, "}");
    result
}

/// The indices of a sequence of indices, as numbers.
pub open spec fn indices(order: Seq<usize>) -> Seq<int> {
    order.map_values(|i: usize| i as int)
}

/// Putting an index into its slot keeps the order.
pub proof fn lemma_insert_ordered(order: Seq<int>, files: Seq<Seq<char>>, x: int, j: int, n: int)
    requires
        ordered(order, files, n),
        0 <= n,
        x == n,
        0 <= j <= order.len(),
        forall|e: int| 0 <= e < j ==> !before(files[x], files[#[trigger] order[e]]),
        j < order.len() ==> before(files[x], files[order[j]]),
    ensures
        ordered(order.insert(j, x), files, n + 1),
{
    let new_order = order.insert(j, x);
    if j < order.len() {
        lemma_before_asymmetric(files[x], files[order[j]]);
    }
    assert forall|i: int| 0 <= i && i + 1 < new_order.len() implies !before(
        files[new_order[i + 1]],
        files[#[trigger] new_order[i]],
    ) by {
        if i + 1 < j {
            assert(new_order[i] == order[i]);
            assert(new_order[i + 1] == order[i + 1]);
        } else if i + 1 == j {
            assert(new_order[i] == order[i]);
        } else if i == j {
            assert(new_order[i + 1] == order[i]);
        } else {
            assert(new_order[i] == order[i - 1]);
            assert(new_order[i + 1] == order[i]);
        }
    }
    assert forall|i: int| 0 <= i < new_order.len() implies 0 <= #[trigger] new_order[i] < n + 1 by {
        if i < j {
            assert(new_order[i] == order[i]);
        } else if i > j {
            assert(new_order[i] == order[i - 1]);
        }
    }
    assert forall|a: int, b: int| 0 <= a < b < new_order.len() implies (#[trigger] new_order[a])
        != (#[trigger] new_order[b]) by {
        let x1 = if a < j {
            order[a]
        } else if a == j {
            x
        } else {
            order[a - 1]
        };
        let x2 = if b < j {
            order[b]
        } else if b == j {
            x
        } else {
            order[b - 1]
        };
        assert(new_order[a] == x1);
        assert(new_order[b] == x2);
    }
}

fn find_slot(modules: &Vec<Bundled>, order: &Vec<usize>, k: usize) -> (j: usize)
    requires
        k < modules@.len(),
        forall|e: int| 0 <= e < order@.len() ==> (#[trigger] order@[e]) < modules@.len(),
    ensures
        j <= order@.len(),
        j == slot(indices(order@), files_of(modules.deep_view()), k as int, 0),
        forall|e: int|
            0 <= e < j ==> !before(
                files_of(modules.deep_view())[k as int],
                files_of(modules.deep_view())[#[trigger] indices(order@)[e]],
            ),
        j < order@.len() ==> before(
            files_of(modules.deep_view())[k as int],
            files_of(modules.deep_view())[indices(order@)[j as int]],
        ),
{
    let ghost files = files_of(modules.deep_view());
    let ghost ord = indices(order@);
    let mut j: usize = 0;
    while j < order.len()
        invariant
            j <= order@.len(),
            k < modules@.len(),
            files == files_of(modules.deep_view()),
            files.len() == modules@.len(),
            ord == indices(order@),
            forall|e: int| 0 <= e < order@.len() ==> (#[trigger] order@[e]) < modules@.len(),
            slot(ord, files, k as int, j as nat) == slot(ord, files, k as int, 0),
            forall|e: int| 0 <= e < j ==> !before(files[k as int], files[#[trigger] ord[e]]),
        decreases order@.len() - j,
    {
        assert(ord[j as int] == order@[j as int] as int);
        assert(files[k as int] == modules@[k as int]@.file);
        assert(files[order@[j as int] as int] == modules@[order@[j as int] as int]@.file);
        if path_lt(modules[k].file.as_str(), modules[order[j]].file.as_str()) {
            return j;
        }
        j += 1;
    }
    j
}

/// Whether no member of `order` comes before one that stands before it.
pub open spec fn sorted_all(order: Seq<int>, files: Seq<Seq<char>>) -> bool {
    forall|i: int, j: int|
        0 <= i < j < order.len() ==> !before(
            files[#[trigger] order[j]],
            files[#[trigger] order[i]],
        )
}

/// Where neighbours are in order, any two members are.
pub proof fn lemma_pair_in_order(order: Seq<int>, files: Seq<Seq<char>>, i: int, j: int)
    requires
        ordered(order, files, files.len() as int),
        forall|k: int| 0 <= k < files.len() ==> (#[trigger] files[k]).len() <= usize::MAX,
        0 <= i < j < order.len(),
    ensures
        !before(files[order[j]], files[order[i]]),
    decreases j - i,
{
    if j > i + 1 {
        lemma_pair_in_order(order, files, i, j - 1);
        assert(!before(files[order[j - 1 + 1]], files[order[j - 1]]));
        assert(0 <= order[i] < files.len());
        assert(0 <= order[j - 1] < files.len());
        lemma_not_before_transitive(files[order[i]], files[order[j - 1]], files[order[j]]);
    } else {
        assert(!before(files[order[i + 1]], files[order[i]]));
    }
}

/// Where neighbours are in order, the whole sequence is.
pub proof fn lemma_sorted_all(order: Seq<int>, files: Seq<Seq<char>>)
    requires
        ordered(order, files, files.len() as int),
        forall|k: int| 0 <= k < files.len() ==> (#[trigger] files[k]).len() <= usize::MAX,
    ensures
        sorted_all(order, files),
{
    assert forall|i: int, j: int| 0 <= i < j < order.len() implies !before(
        files[#[trigger] order[j]],
        files[#[trigger] order[i]],
    ) by {
        lemma_pair_in_order(order, files, i, j);
    }
}

fn lengths_fit(modules: &Vec<Bundled>)
    ensures
        forall|k: int|
            0 <= k < modules@.len() ==> (#[trigger] files_of(modules.deep_view())[k]).len()
                <= usize::MAX,
{
    let mut k: usize = 0;
    while k < modules.len()
        invariant
            k <= modules@.len(),
            forall|e: int|
                0 <= e < k ==> (#[trigger] files_of(modules.deep_view())[e]).len() <= usize::MAX,
        decreases modules@.len() - k,
    {
        let n = modules[k].file.as_str().unicode_len();
        assert(files_of(modules.deep_view())[k as int] == modules@[k as int]@.file);
        k += 1;
    }
}

/// The indices of the paths in the order of the paths: each index once, and
/// none before one whose path comes before its own.
pub fn sort_paths(modules: &Vec<Bundled>) -> (order: Vec<usize>)
    ensures
        order@.len() == modules@.len(),
        indices(order@) == sorted(files_of(modules.deep_view())),
        ordered(
            sorted(files_of(modules.deep_view())),
            files_of(modules.deep_view()),
            modules@.len() as int,
        ),
        sorted_all(sorted(files_of(modules.deep_view())), files_of(modules.deep_view())),
{
    lengths_fit(modules);
    let order = sort_by_slot(modules);
    proof {
        lemma_sorted_all(indices(order@), files_of(modules.deep_view()));
    }
    order
}

fn sort_by_slot(modules: &Vec<Bundled>) -> (order: Vec<usize>)
    ensures
        order@.len() == modules@.len(),
        indices(order@) == sorted(files_of(modules.deep_view())),
        ordered(
            sorted(files_of(modules.deep_view())),
            files_of(modules.deep_view()),
            modules@.len() as int,
        ),
{
    let ghost files = files_of(modules.deep_view());
    let mut order: Vec<usize> = Vec::new();
    let mut k: usize = 0;
    assert(indices(order@) =~= sorted_upto(files, 0));
    while k < modules.len()
        invariant
            k <= modules@.len(),
            files == files_of(modules.deep_view()),
            files.len() == modules@.len(),
            order@.len() == k,
            indices(order@) == sorted_upto(files, k as nat),
            ordered(sorted_upto(files, k as nat), files, k as int),
        decreases modules@.len() - k,
    {
        let ghost old_order = indices(order@);
        assert forall|e: int| 0 <= e < order@.len() implies (#[trigger] order@[e])
            < modules@.len() by {
            assert(old_order[e] == order@[e] as int);
        }
        let j = find_slot(modules, &order, k);
        proof {
            lemma_insert_ordered(old_order, files, k as int, j as int, k as int);
        }
        order.insert(j, k);
        assert(indices(order@) =~= old_order.insert(j as int, k as int));
        k += 1;
    }
    order
}

/// So many semicolons.
pub open spec fn semis(n: nat) -> Seq<char> {
    Seq::new(n, |i: int| ';')
}

/// The mappings of `n` lines that each follow the line before them in the
/// same source.
pub open spec fn next_lines(n: nat) -> Seq<char>
    decreases n,
{
    if n == 0 {
        Seq::empty()
    } else {
        next_lines((n - 1) as nat) + "AACA;"@
    }
}

/// The mapping of the first line of the body of the module with number
/// `index`: the first module begins at its first line; every other one at
/// the first line of the next source, `back` lines before the line that was
/// mapped last.
pub open spec fn first_line(index: nat, back: nat) -> Seq<char> {
    "A"@ + (if index == 0 {
        "AAA"@
    } else {
        "C"@ + encoding(-(back as int)) + "A"@
    }) + ";"@
}

/// The mappings of a module: nothing for the line that opens its function
/// and for its prefix, one for each line of its body, and nothing for the
/// line feed that it may need and for what of its suffix goes beyond one
/// line.
pub open spec fn module_map(m: ModuleView, index: nat, back: nat) -> Seq<char> {
    ";"@ + (if m.source.prefix.len() > 0 {
        semis(lines(m.source.prefix))
    } else {
        Seq::empty()
    }) + first_line(index, back) + next_lines(newlines(m.source.body)) + (if needs_newline(
        m.source.body,
    ) {
        ";"@
    } else {
        Seq::empty()
    }) + semis(newlines(m.source.suffix))
}

/// How many lines lie between the first and the last line of the body of
/// the module before the one with number `k` in `order`.
pub open spec fn back_of(modules: Seq<BundledView>, order: Seq<int>, k: nat) -> nat {
    if k == 0 {
        0
    } else {
        newlines(modules[order[k - 1]].module.source.body)
    }
}

/// The mappings of the first `k` modules of `order`.
pub open spec fn maps_upto(modules: Seq<BundledView>, order: Seq<int>, k: nat) -> Seq<char>
    decreases k,
{
    if k == 0 {
        Seq::empty()
    } else {
        maps_upto(modules, order, (k - 1) as nat) + module_map(
            modules[order[k - 1]].module,
            (k - 1) as nat,
            back_of(modules, order, (k - 1) as nat),
        )
    }
}

/// The name of a source in the source map: its path from the directory of
/// the entry point, where there is one.
pub open spec fn source_name(file: Seq<char>, dir: Seq<char>) -> Seq<char> {
    match relative(file, dir) {
        Some(r) => r,
        None => file,
    }
}

/// The text of a source in the source map: the text as it was read.
pub open spec fn content_of(m: ModuleView) -> Seq<char> {
    match m.source.original {
        Some(o) => o,
        None => m.source.body,
    }
}

/// The names of the first `k` sources, as the members of a JSON array.
pub open spec fn sources_upto(modules: Seq<BundledView>, order: Seq<int>, dir: Seq<char>, k: nat) -> Seq<
    char,
>
    decreases k,
{
    if k == 0 {
        Seq::empty()
    } else {
        sources_upto(modules, order, dir, (k - 1) as nat) + (if k > 1 {
            ","@
        } else {
            Seq::empty()
        }) + json_quoted(source_name(modules[order[k - 1]].file, dir))
    }
}

/// The texts of the first `k` sources, as the members of a JSON array.
pub open spec fn contents_upto(modules: Seq<BundledView>, order: Seq<int>, k: nat) -> Seq<char>
    decreases k,
{
    if k == 0 {
        Seq::empty()
    } else {
        contents_upto(modules, order, (k - 1) as nat) + (if k > 1 {
            ","@
        } else {
            Seq::empty()
        }) + json_quoted(content_of(modules[order[k - 1]].module))
    }
}

/// The character for a value below 64 in base 64: the capital letters,
/// the small letters, the digits, `+` and `/`.
pub open spec fn base64_char(v: int) -> char {
    if v < 26 {
        (65 + v) as u8 as char
    } else if v < 52 {
        (71 + v) as u8 as char
    } else if v < 62 {
        (v - 4) as u8 as char
    } else if v == 62 {
        '+'
    } else {
        '/'
    }
}

/// The base-64 form of the bytes from index `i` on: four characters for
/// every three bytes, six bits each, and `=` in the place of each
/// character that the last bytes leave empty.
pub open spec fn base64_from(data: Seq<u8>, i: nat) -> Seq<char>
    decreases data.len() - i,
{
    if i >= data.len() {
        Seq::empty()
    } else {
        let a = data[i as int] as int;
        if i + 1 == data.len() {
            seq![base64_char(a / 4), base64_char(a % 4 * 16), '=', '=']
        } else {
            let b = data[i as int + 1] as int;
            if i + 2 == data.len() {
                seq![
                    base64_char(a / 4),
                    base64_char(a % 4 * 16 + b / 16),
                    base64_char(b % 16 * 4),
                    '=',
                ]
            } else {
                let c = data[i as int + 2] as int;
                seq![
                    base64_char(a / 4),
                    base64_char(a % 4 * 16 + b / 16),
                    base64_char(b % 16 * 4 + c / 64),
                    base64_char(c % 64),
                ] + base64_from(data, i + 3)
            }
        }
    }
}

/// The base-64 form of a sequence of bytes.
pub open spec fn base64_text(data: Seq<u8>) -> Seq<char> {
    base64_from(data, 0)
}

/// The base-64 form of `data`.
///
/// Trusted: this is `base64::Engine::encode` of the engine
/// `general_purpose::STANDARD`, which writes the standard alphabet and
/// pads with `=`. It panics where the length of the result does not fit in
/// a `usize`, which is left out.
#[verifier::external_body]
fn base64_encode(data: &[u8]) -> (r: String)
    requires
        data@.len() <= usize::MAX / 2,
    ensures
        r@ == base64_text(data@),
{
    base64::Engine::encode(&base64::engine::general_purpose::STANDARD, data)
}

/// What writes a bundle: the modules, the entry point among them, where the
/// source map goes, and the fixed text before and after the modules.
#[derive(Debug)]
pub struct Writer {
    pub head: String,
    pub tail: String,
    pub modules: Vec<Bundled>,
    pub entry_point: String,
    pub map_output: SourceMapOutput,
}

impl Writer {
    /// The modules as values.
    pub open spec fn items(&self) -> Seq<BundledView> {
        self.modules.deep_view()
    }

    /// The modules in the order in which they are written.
    pub open spec fn order(&self) -> Seq<int> {
        sorted(files_of(self.items()))
    }

    /// The directory of the entry point.
    pub open spec fn dir(&self) -> Seq<char> {
        parent(self.entry_point@).unwrap()
    }

    /// The entry point and the bundle's file have directories, and no text
    /// is longer than can be counted.
    pub open spec fn wf(&self) -> bool {
        &&& parent(self.entry_point@).is_some()
        &&& self.map_output@ matches SourceMapOutputView::File(_, output) ==> parent(
            output,
        ).is_some()
        &&& forall|i: int|
            0 <= i < self.items().len() ==> (#[trigger] self.items()[i]).module.source.body.len()
                <= isize::MAX
    }

    /// The bundle without the comment that names the source map.
    pub open spec fn bundle(&self) -> Seq<char> {
        self.head@ + chunks(self.items(), self.order(), self.dir(), self.items().len()) + closing(
            self.entry_point@,
        ) + self.tail@
    }

    /// The number of lines of the bundle: those of the head; for every
    /// module the line that opens its function, its prefix, its body, the
    /// line feed that the body may need, and what of its suffix goes beyond
    /// one line; the two lines that start the entry module; and the tail.
    pub open spec fn line_count(&self) -> nat {
        lines(self.head@) + modules_lines(self.items(), self.order(), self.items().len()) + 2
            + lines(self.tail@)
    }

    /// The mappings of the source map: a group for every line of the
    /// bundle, with `;` after each.
    pub open spec fn mappings(&self) -> Seq<char> {
        semis(lines(self.head@)) + maps_upto(self.items(), self.order(), self.items().len())
            + semis(1 + lines(self.tail@))
    }

    /// The source map, a JSON document.
    pub open spec fn map(&self) -> Seq<char> {
        "{\"version\":3,\"file\":\"\",\"sourceRoot\":\"\",\"sources\":["@ + sources_upto(
            self.items(),
            self.order(),
            self.dir(),
            self.items().len(),
        ) + "],\"sourcesContent\":["@ + contents_upto(
            self.items(),
            self.order(),
            self.items().len(),
        ) + "],\"names\":[],\"mappings\":"@ + json_quoted(self.mappings()) + "}"@
    }

    /// Whether the source map can be put into the bundle: its base-64 form
    /// must have a length that fits.
    pub open spec fn fits_inline(&self) -> bool {
        vstd::utf8::encode_utf8(self.map()).len() <= usize::MAX / 2
    }

    /// The comment that names the source map.
    pub open spec fn map_comment(&self) -> Seq<char> {
        match self.map_output@ {
            SourceMapOutputView::Suppressed => Seq::empty(),
            SourceMapOutputView::Inline =>
                "//# sourceMappingURL=data:application/json;charset=utf-8;base64,"@ + base64_text(
                    vstd::utf8::encode_utf8(self.map()),
                ) + "\n"@,
            SourceMapOutputView::File(path, output) => "//# sourceMappingURL="@ + source_name(
                path,
                parent(output).unwrap(),
            ) + "\n"@,
        }
    }

    /// The indices of the modules in the order of their paths.
    pub fn sorted_modules(&self) -> (order: Vec<usize>)
        ensures
            order@.len() == self.modules@.len(),
            indices(order@) == self.order(),
            ordered(self.order(), files_of(self.items()), self.modules@.len() as int),
            sorted_all(self.order(), files_of(self.items())),
    {
        sort_paths(&self.modules)
    }

    /// The comment that names the source map; nothing where the source map
    /// is to go into the bundle and is too long for that.
    pub fn comment(&self) -> (r: Option<String>)
        requires
            self.wf(),
        ensures
            r.is_some() == (self.map_output@ is Inline ==> self.fits_inline()),
            r matches Some(c) ==> c@ == self.map_comment(),
    {
        let mut comment = String::new();
        match &self.map_output {
            SourceMapOutput::Suppressed => {},
            SourceMapOutput::Inline => {
                let mut map = String::new();
                self.write_map_to(&mut map);
                assert(map@ =~= self.map());
                let bytes = map.as_str().as_bytes();
                if bytes.len() > usize::MAX / 2 {
                    return None;
                }
                comment.append("//# sourceMappingURL=data:application/json;charset=utf-8;base64,");
                comment.append(base64_encode(bytes).as_str());
                comment.append("\n");
            },
            SourceMapOutput::File(path, output_file) => {
                let dir = match path_parent(output_file.as_str()) {
                    Some(d) => d,
                    None => String::new(),
                };
                comment.append("//# sourceMappingURL=");
                match relative_from(path.as_str(), dir.as_str()) {
                    Some(r) => {
                        comment.append(r.as_str());
                    },
                    None => {
                        comment.append(path.as_str());
                    },
                }
                comment.append("\n");
            },
        }
        assert(comment@ =~= self.map_comment());
        Some(comment)
    }

    fn write_chunks(&self, text: &mut String)
        requires
            self.wf(),
        ensures
            final(text)@ == old(text)@ + chunks(
                self.items(),
                self.order(),
                self.dir(),
                self.items().len(),
            ),
            newlines(final(text)@) == newlines(old(text)@) + modules_lines(
                self.items(),
                self.order(),
                self.items().len(),
            ),
    {
        let order = self.sorted_modules();
        let ghost items = self.items();
        let ghost ord = self.order();
        let ghost base = text@;
        let mut k: usize = 0;
        assert(base + chunks(items, ord, self.dir(), 0) =~= base);
        proof {
            lemma_opening_pieces();
        }
        while k < order.len()
            invariant
                k <= order@.len(),
                self.wf(),
                order@.len() == self.modules@.len(),
                items == self.items(),
                items.len() == self.modules@.len(),
                ord == self.order(),
                indices(order@) == ord,
                forall|i: int| 0 <= i < ord.len() ==> 0 <= #[trigger] ord[i] < self.modules@.len(),
                base == old(text)@,
                text@ == base + chunks(items, ord, self.dir(), k as nat),
                newlines(text@) == newlines(base) + modules_lines(items, ord, k as nat),
                newlines("}"@) == 0,
            decreases order@.len() - k,
        {
            assert(ord[k as int] == order@[k as int] as int);
            let info = &self.modules[order[k]];
            assert(items[ord[k as int]] == info@);
            write_chunk(text, info, self.entry_point.as_str());
            k += 1;
        }
    }

    fn write_closing(&self, text: &mut String)
        requires
            self.wf(),
        ensures
            final(text)@ == old(text)@ + closing(self.entry_point@),
            newlines(final(text)@) == newlines(old(text)@) + 3,
    {
        let main = name_path(path_last(self.entry_point.as_str()).as_str());
        proof {
            lemma_closing_pieces();
        }
        let mut s = String::new();
        assert(newlines(s@) == 0) by {
            lemma_plain(s@);
        }
        put(&mut s, "\n  Shim.main = ");
        put(&mut s, main.as_str());
        put(&mut s, "; Shim.makeRequire(null)()");
        put(&mut s, "\n");
        put(
            &mut s,
            "  if (typeof module !== 'undefined') module.exports = Shim.main.module && Shim.main.module.exports",
        );
        put(&mut s, "\n");
        assert(s@ =~= closing(self.entry_point@));
        put(text, s.as_str());
    }

    /// Appends the bundle without the comment that names the source map:
    /// the head, the modules in the order of their paths, the lines that
    /// start the entry module, and the tail.
    pub fn write_bundle_to(&self, w: &mut String)
        requires
            self.wf(),
        ensures
            final(w)@ == old(w)@ + self.bundle(),
            lines(self.bundle()) == self.line_count(),
    {
        let mut text = String::new();
        assert(newlines(text@) == 0) by {
            lemma_plain(text@);
        }
        put(&mut text, self.head.as_str());
        self.write_chunks(&mut text);
        self.write_closing(&mut text);
        put(&mut text, self.tail.as_str());
        assert(text@ =~= self.bundle());
        w.append(text.as_str());
    }

    /// Appends the bundle to `w`, with the comment that names the source
    /// map after it. Where the source map is to go into the bundle and is
    /// too long for that, nothing is written and the result is `false`.
    pub fn write_to(&self, w: &mut String) -> (ok: bool)
        requires
            self.wf(),
        ensures
            ok == (self.map_output@ is Inline ==> self.fits_inline()),
            ok ==> final(w)@ == old(w)@ + self.bundle() + self.map_comment(),
            !ok ==> final(w)@ == old(w)@,
            lines(self.bundle()) == self.line_count(),
    {
        let comment = self.comment();
        let mut text = String::new();
        self.write_bundle_to(&mut text);
        assert(text@ =~= self.bundle());
        match comment {
            Some(c) => {
                w.append(text.as_str());
                w.append(c.as_str());
                true
            },
            None => false,
        }
    }

    /// Appends the mappings of the source map to `w`.
    pub fn write_mappings_to(&self, w: &mut String)
        requires
            self.wf(),
        ensures
            final(w)@ == old(w)@ + self.mappings(),
    {
        push_semis(w, 1);
        push_semis(w, newline_count(self.head.as_str()));
        assert(w@ =~= old(w)@ + semis(lines(self.head@)));
        let order = self.sorted_modules();
        let ghost items = self.items();
        let ghost ord = self.order();
        let ghost base = w@;
        let mut line: usize = 0;
        let mut vlq = Vlq::new();
        let mut k: usize = 0;
        assert(base + maps_upto(items, ord, 0) =~= base);
        while k < order.len()
            invariant
                k <= order@.len(),
                self.wf(),
                order@.len() == self.modules@.len(),
                items == self.items(),
                ord == self.order(),
                indices(order@) == ord,
                forall|i: int| 0 <= i < ord.len() ==> 0 <= #[trigger] ord[i] < self.modules@.len(),
                w@ == base + maps_upto(items, ord, k as nat),
                line == back_of(items, ord, k as nat),
                line <= isize::MAX,
            decreases order@.len() - k,
        {
            assert(ord[k as int] == order@[k as int] as int);
            let info = &self.modules[order[k]];
            assert(items[ord[k as int]] == info@);
            let ghost before = w@;
            proof {
                lemma_count_bound(info.module.source.body@, '\n', info.module.source.body@.len());
            }
            line = write_module_map(w, &info.module, k, line, &mut vlq);
            assert(w@ =~= before + module_map(info@.module, k as nat, back_of(items, ord, k as nat)));
            k += 1;
        }
        push_semis(w, 2);
        push_semis(w, newline_count(self.tail.as_str()));
        assert(w@ =~= old(w)@ + self.mappings());
    }

    /// Appends the source map to `w`.
    pub fn write_map_to(&self, w: &mut String)
        requires
            self.wf(),
        ensures
            final(w)@ == old(w)@ + self.map(),
    {
        let order = self.sorted_modules();
        let ghost items = self.items();
        let ghost ord = self.order();
        let dir = match path_parent(self.entry_point.as_str()) {
            Some(d) => d,
            None => String::new(),
        };
        w.append("{\"version\":3,\"file\":\"\",\"sourceRoot\":\"\",\"sources\":[");
        let ghost base = w@;
        let mut k: usize = 0;
        assert(base + sources_upto(items, ord, dir@, 0) =~= base);
        while k < order.len()
            invariant
                k <= order@.len(),
                order@.len() == self.modules@.len(),
                items == self.items(),
                ord == self.order(),
                indices(order@) == ord,
                forall|i: int| 0 <= i < ord.len() ==> 0 <= #[trigger] ord[i] < self.modules@.len(),
                w@ == base + sources_upto(items, ord, dir@, k as nat),
            decreases order@.len() - k,
        {
            assert(ord[k as int] == order@[k as int] as int);
            let info = &self.modules[order[k]];
            assert(items[ord[k as int]] == info@);
            if k > 0 {
                w.append(",");
            }
            match relative_from(info.file.as_str(), dir.as_str()) {
                Some(r) => {
                    w.append(to_quoted_json_string(r.as_str()).as_str());
                },
                None => {
                    w.append(to_quoted_json_string(info.file.as_str()).as_str());
                },
            }
            k += 1;
            assert(w@ =~= base + sources_upto(items, ord, dir@, k as nat));
        }
        w.append("],\"sourcesContent\":[");
        let ghost base2 = w@;
        let mut k: usize = 0;
        assert(base2 + contents_upto(items, ord, 0) =~= base2);
        while k < order.len()
            invariant
                k <= order@.len(),
                order@.len() == self.modules@.len(),
                items == self.items(),
                ord == self.order(),
                indices(order@) == ord,
                forall|i: int| 0 <= i < ord.len() ==> 0 <= #[trigger] ord[i] < self.modules@.len(),
                w@ == base2 + contents_upto(items, ord, k as nat),
            decreases order@.len() - k,
        {
            assert(ord[k as int] == order@[k as int] as int);
            let info = &self.modules[order[k]];
            assert(items[ord[k as int]] == info@);
            if k > 0 {
                w.append(",");
            }
            match &info.module.source.original {
                Some(o) => {
                    w.append(to_quoted_json_string(o.as_str()).as_str());
                },
                None => {
                    w.append(to_quoted_json_string(info.module.source.body.as_str()).as_str());
                },
            }
            k += 1;
            assert(w@ =~= base2 + contents_upto(items, ord, k as nat));
        }
        w.append("],\"names\":[],\"mappings\":");
        let mut mappings = String::new();
        self.write_mappings_to(&mut mappings);
        assert(mappings@ =~= self.mappings());
        w.append(to_quoted_json_string(mappings.as_str()).as_str());
        w.append("}");
        assert(w@ =~= old(w)@ + self.map());
    }
}

fn write_chunk(w: &mut String, info: &Bundled, entry_point: &str)
    requires
        parent(entry_point@).is_some(),
    ensures
        final(w)@ == old(w)@ + chunk(info@, parent(entry_point@).unwrap()),
        newlines(final(w)@) == newlines(old(w)@) + module_lines(info@.module),
{
    proof {
        lemma_opening_pieces();
    }
    write_opening(w, info, entry_point);
    write_wrapped(w, &info.module);
    put(w, "}");
    assert(w@ =~= old(w)@ + chunk(info@, parent(entry_point@).unwrap()));
}

fn write_opening(w: &mut String, info: &Bundled, entry_point: &str)
    requires
        parent(entry_point@).is_some(),
    ensures
        final(w)@ == old(w)@ + opening(info@, parent(entry_point@).unwrap()),
        newlines(final(w)@) == newlines(old(w)@) + 2,
{
    let id = name_path(info.file.as_str());
    let deps = stringify_deps(&info.module.deps, entry_point);
    let filename = js_path(info.file.as_str());
    proof {
        lemma_opening_pieces();
    }
    let mut line = String::new();
    assert(newlines(line@) == 0) by {
        lemma_plain(line@);
    }
    put(&mut line, "\n  Shim.files[");
    put(&mut line, filename.as_str());
    put(&mut line, "] = ");
    put(&mut line, id.as_str());
    put(&mut line, "; ");
    put(&mut line, id.as_str());
    put(&mut line, ".deps = ");
    put(&mut line, deps.as_str());
    let ghost half = line@;
    put(&mut line, "; ");
    put(&mut line, id.as_str());
    put(&mut line, ".filename = ");
    put(&mut line, filename.as_str());
    put(&mut line, "; function ");
    put(&mut line, id.as_str());
    put(&mut line, "(module, exports, require, __filename, __dirname, __import_meta) {");
    put(&mut line, "\n");
    assert(half =~= "\n  Shim.files["@ + json_quoted(info@.file) + "] = "@ + id@ + "; "@ + id@
        + ".deps = "@ + deps@);
    assert(line@ =~= opening(info@, parent(entry_point@).unwrap()));
    put(w, line.as_str());
}

fn write_wrapped(w: &mut String, module: &Module)
    ensures
        final(w)@ == old(w)@ + wrapped(module@),
        newlines(final(w)@) == newlines(old(w)@) + prefix_lines(module@.source.prefix) + newlines(
            module@.source.body,
        ) + trailing(module@.source.body) + newlines(module@.source.suffix),
{
    proof {
        lemma_opening_pieces();
    }
    let source = &module.source;
    if source.prefix.as_str().unicode_len() > 0 {
        put(w, source.prefix.as_str());
        put(w, "\n");
    }
    put(w, source.body.as_str());
    if body_needs_newline(source.body.as_str()) {
        put(w, "\n");
    }
    put(w, source.suffix.as_str());
    assert(w@ =~= old(w)@ + wrapped(module@));
}

fn write_first_line(w: &mut String, index: usize, back: usize, vlq: &mut Vlq)
    requires
        back <= isize::MAX,
    ensures
        final(w)@ == old(w)@ + first_line(index as nat, back as nat),
{
    let mut s = String::new();
    s.append("A");
    if index == 0 {
        s.append("AAA");
    } else {
        s.append("C");
        s.append(vlq.enc(-(back as isize)));
        s.append("A");
    }
    s.append(";");
    assert(s@ =~= first_line(index as nat, back as nat));
    w.append(s.as_str());
}

fn write_module_map(w: &mut String, module: &Module, index: usize, back: usize, vlq: &mut Vlq) -> (n: usize)
    requires
        back <= isize::MAX,
    ensures
        final(w)@ == old(w)@ + module_map(module@, index as nat, back as nat),
        n == newlines(module@.source.body),
{
    let source = &module.source;
    let mut s = String::new();
    s.append(";");
    if source.prefix.as_str().unicode_len() > 0 {
        push_semis(&mut s, 1);
        push_semis(&mut s, newline_count(source.prefix.as_str()));
        assert(s@ =~= ";"@ + semis(lines(source.prefix@)));
    }
    write_first_line(&mut s, index, back, vlq);
    let n = newline_count(source.body.as_str());
    push_next_lines(&mut s, n);
    if body_needs_newline(source.body.as_str()) {
        s.append(";");
    }
    push_semis(&mut s, newline_count(source.suffix.as_str()));
    assert(s@ =~= module_map(module@, index as nat, back as nat));
    w.append(s.as_str());
    n
}

/// Whether `body` needs a line feed after it.
pub fn body_needs_newline(body: &str) -> (r: bool)
    ensures
        r == needs_newline(body@),
{
    let n = body.unicode_len();
    if n == 0 {
        return false;
    }
    let c = body.get_char(n - 1);
    c != '\n' && c != '\r' && c != '\u{2028}' && c != '\u{2029}'
}

fn push_semis(w: &mut String, n: usize)
    ensures
        final(w)@ == old(w)@ + semis(n as nat),
{
    let mut i: usize = 0;
    assert(old(w)@ + semis(0) =~= old(w)@);
    while i < n
        invariant
            i <= n,
            w@ == old(w)@ + semis(i as nat),
        decreases n - i,
    {
        push_char(w, ';');
        i += 1;
        assert(w@ =~= old(w)@ + semis(i as nat));
    }
}

fn push_next_lines(w: &mut String, n: usize)
    ensures
        final(w)@ == old(w)@ + next_lines(n as nat),
{
    let mut i: usize = 0;
    assert(old(w)@ + next_lines(0) =~= old(w)@);
    while i < n
        invariant
            i <= n,
            w@ == old(w)@ + next_lines(i as nat),
        decreases n - i,
    {
        w.append("AACA;");
        i += 1;
        assert(w@ =~= old(w)@ + next_lines(i as nat));
    }
}

/// So many semicolons count so many.
pub proof fn lemma_semis_count(n: nat, k: nat)
    requires
        k <= n,
    ensures
        count_upto(semis(n), ';', k) == k,
    decreases k,
{
    if k > 0 {
        lemma_semis_count(n, (k - 1) as nat);
    }
}

/// The mappings of `n` further lines hold `n` semicolons.
pub proof fn lemma_next_lines_count(n: nat)
    ensures
        count(next_lines(n), ';') == n,
    decreases n,
{
    reveal_strlit("AACA;");
    reveal_with_fuel(count_upto, 6);
    if n > 0 {
        lemma_next_lines_count((n - 1) as nat);
        lemma_count_concat(next_lines((n - 1) as nat), "AACA;"@, ';');
    } else {
        lemma_count_none(next_lines(0), ';', 0);
    }
}

/// The digits of a number hold no semicolon.
pub proof fn lemma_groups_count(y: int, rest: nat)
    requires
        0 <= y < 32,
    ensures
        count(groups(y, rest), ';') == 0,
    decreases rest,
{
    reveal_with_fuel(count_upto, 2);
    if rest == 0 {
        assert(digit(y) != ';');
        lemma_count_none(groups(y, rest), ';', 1);
    } else {
        assert(digit(y + 32) != ';');
        lemma_groups_count((rest % 32) as int, rest / 32);
        lemma_count_none(seq![digit(y + 32)], ';', 1);
        lemma_count_concat(seq![digit(y + 32)], groups((rest % 32) as int, rest / 32), ';');
    }
}

/// The mapping of a first line holds one semicolon, at its end.
pub proof fn lemma_first_line_count(index: nat, back: nat)
    ensures
        count(first_line(index, back), ';') == 1,
{
    reveal_strlit("A");
    reveal_strlit("AAA");
    reveal_strlit("C");
    reveal_strlit(";");
    reveal_with_fuel(count_upto, 4);
    let n = -(back as int);
    let m = if n < 0 {
        -n
    } else {
        n
    };
    lemma_groups_count((m % 16) * 2 + if n < 0 { 1int } else { 0int }, (m / 16) as nat);
    let mid = if index == 0 {
        "AAA"@
    } else {
        "C"@ + encoding(n) + "A"@
    };
    lemma_count_concat("C"@, encoding(n), ';');
    lemma_count_concat("C"@ + encoding(n), "A"@, ';');
    lemma_count_concat("A"@, mid, ';');
    lemma_count_concat("A"@ + mid, ";"@, ';');
}

/// The mappings of a module hold a semicolon for each of its lines.
pub proof fn lemma_module_map_count(m: ModuleView, index: nat, back: nat)
    ensures
        count(module_map(m, index, back), ';') == module_lines(m),
{
    reveal_strlit(";");
    reveal_with_fuel(count_upto, 2);
    let a = ";"@;
    let b = if m.source.prefix.len() > 0 {
        semis(lines(m.source.prefix))
    } else {
        Seq::empty()
    };
    let c = first_line(index, back);
    let d = next_lines(newlines(m.source.body));
    let e = if needs_newline(m.source.body) {
        ";"@
    } else {
        Seq::empty()
    };
    let f = semis(newlines(m.source.suffix));
    if m.source.prefix.len() > 0 {
        lemma_semis_count(lines(m.source.prefix), lines(m.source.prefix));
    } else {
        lemma_count_none(b, ';', 0);
    }
    lemma_first_line_count(index, back);
    lemma_next_lines_count(newlines(m.source.body));
    if !needs_newline(m.source.body) {
        lemma_count_none(e, ';', 0);
    }
    lemma_semis_count(newlines(m.source.suffix), newlines(m.source.suffix));
    lemma_count_concat(a, b, ';');
    lemma_count_concat(a + b, c, ';');
    lemma_count_concat(a + b + c, d, ';');
    lemma_count_concat(a + b + c + d, e, ';');
    lemma_count_concat(a + b + c + d + e, f, ';');
}

/// The mappings of the first `k` modules hold a semicolon for each of
/// their lines.
pub proof fn lemma_maps_count(modules: Seq<BundledView>, order: Seq<int>, k: nat)
    ensures
        count(maps_upto(modules, order, k), ';') == modules_lines(modules, order, k),
    decreases k,
{
    if k > 0 {
        lemma_maps_count(modules, order, (k - 1) as nat);
        lemma_module_map_count(
            modules[order[k - 1]].module,
            (k - 1) as nat,
            back_of(modules, order, (k - 1) as nat),
        );
        lemma_count_concat(
            maps_upto(modules, order, (k - 1) as nat),
            module_map(
                modules[order[k - 1]].module,
                (k - 1) as nat,
                back_of(modules, order, (k - 1) as nat),
            ),
            ';',
        );
    } else {
        lemma_count_none(maps_upto(modules, order, 0), ';', 0);
    }
}

impl Writer {
    /// The mappings hold one semicolon for every line feed of the bundle:
    /// one less than the bundle has lines.
    pub proof fn lemma_mappings_count(&self)
        ensures
            count(self.mappings(), ';') + 1 == self.line_count(),
    {
        let n = self.items().len();
        let a = semis(lines(self.head@));
        let b = maps_upto(self.items(), self.order(), n);
        let c = semis(1 + lines(self.tail@));
        lemma_semis_count(lines(self.head@), lines(self.head@));
        lemma_maps_count(self.items(), self.order(), n);
        lemma_semis_count(1 + lines(self.tail@), 1 + lines(self.tail@));
        lemma_count_concat(a, b, ';');
        lemma_count_concat(a + b, c, ';');
    }
}

} // verus!
