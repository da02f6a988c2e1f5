//! Package manifests: the main file of a package, the substitutions of its
//! `browser` field, and the table of the manifests that were read.

use vstd::prelude::*;
use crate::input_options::PackageManager;
use crate::path_ext::{
    append_resolving,
    appended,
    is_absolute,
    lemma_appended_absolute,
    parts,
    file_name,
    is_explicitly_relative,
    parent,
    path_eq,
    path_file_name,
    path_is_explicitly_relative,
    pop,
    same_path,
};
use crate::text::{chars_end_with, chars_of, decimal, ends_with, push_char, push_decimal, str_eq};

verus! {

/// What stands in the place of a path or module for the browser.
#[derive(Debug, PartialEq, Eq, Clone)]
pub enum BrowserSubstitution {
    /// Nothing: the empty module.
    Ignore,
    /// Another path or module.
    Replace(String),
}

pub enum BrowserSubstitutionView {
    Ignore,
    Replace(Seq<char>),
}

impl View for BrowserSubstitution {
    type V = BrowserSubstitutionView;

    open spec fn view(&self) -> BrowserSubstitutionView {
        match self {
            BrowserSubstitution::Ignore => BrowserSubstitutionView::Ignore,
            BrowserSubstitution::Replace(s) => BrowserSubstitutionView::Replace(s@),
        }
    }
}

/// One substitution: what is replaced, and by what.
#[derive(Debug, PartialEq, Eq, Clone)]
pub struct Subst {
    pub from: String,
    pub to: BrowserSubstitution,
}

pub struct SubstView {
    pub from: Seq<char>,
    pub to: BrowserSubstitutionView,
}

impl View for Subst {
    type V = SubstView;

    open spec fn view(&self) -> SubstView {
        SubstView { from: self.from@, to: self.to@ }
    }
}

impl DeepView for Subst {
    type V = SubstView;

    open spec fn deep_view(&self) -> SubstView {
        self@
    }
}

/// The substitutions of a package, in the order in which the object of the
/// manifest hands out its keys; that need not be the order in which they
/// are written. Where two are for the same path, the later one in this
/// order counts.
#[derive(Debug, Default, PartialEq, Eq, Clone)]
pub struct BrowserSubstitutionMap(pub Vec<Subst>);

impl View for BrowserSubstitutionMap {
    type V = Seq<SubstView>;

    open spec fn view(&self) -> Seq<SubstView> {
        self.0.deep_view()
    }
}

/// What a package manifest says: the main file, and the substitutions.
#[derive(Debug, PartialEq, Eq, Clone)]
pub struct PackageInfo {
    pub main: String,
    pub browser_substitutions: BrowserSubstitutionMap,
}

pub struct PackageInfoView {
    pub main: Seq<char>,
    pub browser_substitutions: Seq<SubstView>,
}

impl View for PackageInfo {
    type V = PackageInfoView;

    open spec fn view(&self) -> PackageInfoView {
        PackageInfoView { main: self.main@, browser_substitutions: self.browser_substitutions@ }
    }
}

/// What a JSON value is, one level deep.
#[derive(Debug, PartialEq, Eq, Clone)]
pub enum Shape {
    Null,
    Bool(bool),
    Number,
    Text(String),
    /// An array of so many members.
    Array(usize),
    /// An object with these keys.
    Object(Vec<String>),
}

pub enum ShapeView {
    Null,
    Bool(bool),
    Number,
    Text(Seq<char>),
    Array(nat),
    Object(Seq<Seq<char>>),
}

impl View for Shape {
    type V = ShapeView;

    open spec fn view(&self) -> ShapeView {
        match self {
            Shape::Null => ShapeView::Null,
            Shape::Bool(b) => ShapeView::Bool(*b),
            Shape::Number => ShapeView::Number,
            Shape::Text(s) => ShapeView::Text(s@),
            Shape::Array(n) => ShapeView::Array(*n as nat),
            Shape::Object(keys) => ShapeView::Object(keys.deep_view()),
        }
    }
}

/// The shape of the value that a JSON pointer leads to in a JSON text, if
/// the text is JSON and holds a value there.
pub uninterp spec fn json_at(text: Seq<char>, pointer: Seq<char>) -> Option<ShapeView>;

/// A shape, if there is one, as a value.
pub open spec fn shape_view(r: Option<Shape>) -> Option<ShapeView> {
    match r {
        Some(s) => Some(s@),
        None => None,
    }
}

/// The shape of the value that `pointer` leads to in `text`.
///
/// Trusted: this parses the text with `serde_json::from_str` into a
/// `serde_json::Value`, follows the pointer with `Value::pointer`, and tells
/// the variants of the value apart. Of a string it hands back the text, of
/// an array the length, of an object the keys in the order in which the
/// object walks them. The result is a function of text and pointer.
#[verifier::external_body]
fn json_shape(text: &str, pointer: &str) -> (r: Option<Shape>)
    ensures
        shape_view(r) == json_at(text@, pointer@),
{
    let value = serde_json::from_str::<serde_json::Value>(text).ok()?;
    Some(
        match value.pointer(pointer)? {
            serde_json::Value::Null => Shape::Null,
            serde_json::Value::Bool(b) => Shape::Bool(*b),
            serde_json::Value::Number(_) => Shape::Number,
            serde_json::Value::String(s) => Shape::Text(s.clone()),
            serde_json::Value::Array(a) => Shape::Array(a.len()),
            serde_json::Value::Object(o) => Shape::Object(o.keys().cloned().collect()),
        },
    )
}

/// A character of a key as it stands in a JSON pointer.
pub open spec fn pointer_char(c: char) -> Seq<char> {
    if c == '~' {
        seq!['~', '0']
    } else if c == '/' {
        seq!['~', '1']
    } else {
        seq![c]
    }
}

/// The first `k` characters of a key as they stand in a JSON pointer.
pub open spec fn pointer_token(key: Seq<char>, k: nat) -> Seq<char>
    decreases k,
{
    if k == 0 {
        Seq::empty()
    } else {
        pointer_token(key, (k - 1) as nat) + pointer_char(key[k - 1])
    }
}

/// The pointer to the member `key` of the object at `base`.
pub open spec fn member(base: Seq<char>, key: Seq<char>) -> Seq<char> {
    base + seq!['/'] + pointer_token(key, key.len())
}

/// The pointer to the member with number `i` of the array at `base`.
pub open spec fn item(base: Seq<char>, i: nat) -> Seq<char> {
    base + seq!['/'] + decimal(i)
}

fn member_pointer(base: &str, key: &str) -> (r: String)
    ensures
        r@ == member(base@, key@),
{
    let mut r = base.to_owned();
    push_char(&mut r, '/');
    let k = chars_of(key);
    let ghost start = r@;
    let mut i: usize = 0;
    assert(start + pointer_token(k@, 0) =~= start);
    while i < k.len()
        invariant
            i <= k@.len(),
            r@ == start + pointer_token(k@, i as nat),
        decreases k@.len() - i,
    {
        let c = k[i];
        if c == '~' {
            push_char(&mut r, '~');
            push_char(&mut r, '0');
        } else if c == '/' {
            push_char(&mut r, '~');
            push_char(&mut r, '1');
        } else {
            push_char(&mut r, c);
        }
        i += 1;
        assert(r@ =~= start + pointer_token(k@, i as nat));
    }
    assert(r@ =~= member(base@, key@));
    r
}

fn item_pointer(base: &str, i: usize) -> (r: String)
    ensures
        r@ == item(base@, i as nat),
{
    let mut r = base.to_owned();
    push_char(&mut r, '/');
    push_decimal(&mut r, i);
    assert(r@ =~= item(base@, i as nat));
    r
}

/// The substitution that a JSON text is: `false` for nothing, a string for
/// another path or module.
pub open spec fn substitution_at(text: Seq<char>, pointer: Seq<char>) -> Option<
    BrowserSubstitutionView,
> {
    match json_at(text, pointer) {
        Some(ShapeView::Bool(b)) => if b {
            None
        } else {
            Some(BrowserSubstitutionView::Ignore)
        },
        Some(ShapeView::Text(s)) => Some(BrowserSubstitutionView::Replace(s)),
        _ => None,
    }
}

/// The substitutions of the members of the object at `base` from the key
/// with number `i` on, after those in `acc`; nothing if one of the members
/// is no substitution.
pub open spec fn substitutions_from(
    text: Seq<char>,
    base: Seq<char>,
    keys: Seq<Seq<char>>,
    i: nat,
    acc: Seq<SubstView>,
) -> Option<Seq<SubstView>>
    decreases keys.len() - i,
{
    if i >= keys.len() {
        Some(acc)
    } else {
        match substitution_at(text, member(base, keys[i as int])) {
            Some(to) => substitutions_from(
                text,
                base,
                keys,
                i + 1,
                acc.push(SubstView { from: keys[i as int], to }),
            ),
            None => None,
        }
    }
}

/// The substitutions that the object at `base` holds, if it is one and all
/// of its members are substitutions.
pub open spec fn substitutions_at(text: Seq<char>, base: Seq<char>) -> Option<Seq<SubstView>> {
    match json_at(text, base) {
        Some(ShapeView::Object(keys)) => substitutions_from(text, base, keys, 0, Seq::empty()),
        _ => None,
    }
}

/// The first of the members of the array `main`, from the one with number
/// `i` on, that ends in `.js`, unless `found` holds an earlier one; nothing
/// if one of the members is no string.
pub open spec fn main_from(text: Seq<char>, n: nat, i: nat, found: Option<Seq<char>>) -> Option<
    Option<Seq<char>>,
>
    decreases n - i,
{
    if i >= n {
        Some(found)
    } else {
        match json_at(text, item("/main"@, i)) {
            Some(ShapeView::Text(s)) => main_from(
                text,
                n,
                i + 1,
                if found.is_none() && ends_with(s, ".js"@) {
                    Some(s)
                } else {
                    found
                },
            ),
            _ => None,
        }
    }
}

/// What a manifest names as its main file: a string, or the first member of
/// an array that ends in `.js`. Nothing if an array holds anything but
/// strings.
pub open spec fn main_field(text: Seq<char>) -> Option<Option<Seq<char>>> {
    match json_at(text, "/main"@) {
        Some(ShapeView::Text(s)) => Some(Some(s)),
        Some(ShapeView::Array(n)) => main_from(text, n, 0, None),
        _ => Some(None),
    }
}

/// A replacement as a path of the package: made to begin with `.`.
pub open spec fn package_relative(to: Seq<char>) -> Seq<char> {
    if is_explicitly_relative(to) {
        to
    } else {
        appended("."@, to)
    }
}

/// The `browser` field of a manifest.
#[derive(Debug, PartialEq, Eq, Clone)]
pub enum BrowserField {
    /// Missing, or neither a string nor an object.
    Empty,
    /// A file that takes the place of the main file.
    Main(String),
    /// A list of substitutions.
    Complex(BrowserSubstitutionMap),
}

pub enum BrowserFieldView {
    Empty,
    Main(Seq<char>),
    Complex(Seq<SubstView>),
}

impl View for BrowserField {
    type V = BrowserFieldView;

    open spec fn view(&self) -> BrowserFieldView {
        match self {
            BrowserField::Empty => BrowserFieldView::Empty,
            BrowserField::Main(to) => BrowserFieldView::Main(to@),
            BrowserField::Complex(map) => BrowserFieldView::Complex(map@),
        }
    }
}

/// The `browser` field of a manifest; nothing if it is an object that
/// holds anything but substitutions.
pub open spec fn browser_shape(text: Seq<char>) -> Option<BrowserFieldView> {
    match json_at(text, "/browser"@) {
        Some(ShapeView::Text(to)) => Some(BrowserFieldView::Main(to)),
        Some(ShapeView::Object(keys)) => match substitutions_from(
            text,
            "/browser"@,
            keys,
            0,
            Seq::empty(),
        ) {
            Some(subs) => Some(BrowserFieldView::Complex(subs)),
            None => None,
        },
        _ => Some(BrowserFieldView::Empty),
    }
}

/// The substitutions that a `browser` field comes to in a package with the
/// main file `main`. A file takes the place of the main file, and for Bower
/// of the package directory too; a list of substitutions is itself.
pub open spec fn field_map(field: BrowserFieldView, main: Seq<char>, pm: PackageManager) -> Seq<
    SubstView,
> {
    match field {
        BrowserFieldView::Empty => Seq::empty(),
        BrowserFieldView::Main(to) => {
            let to = BrowserSubstitutionView::Replace(package_relative(to));
            if pm == PackageManager::Bower {
                seq![SubstView { from: "."@, to }, SubstView { from: main, to }]
            } else {
                seq![SubstView { from: main, to }]
            }
        },
        BrowserFieldView::Complex(subs) => subs,
    }
}

/// The substitutions of a manifest with the main file `main`; nothing if
/// the `browser` field is an object that holds anything but substitutions.
pub open spec fn browser_field(text: Seq<char>, main: Seq<char>, pm: PackageManager) -> Option<
    Seq<SubstView>,
> {
    match browser_shape(text) {
        Some(field) => Some(field_map(field, main, pm)),
        None => None,
    }
}

/// What a manifest says, if the text is one: a JSON object. The main file
/// is made to begin with `.`; it is `./index` where the manifest names
/// none.
pub open spec fn manifest(text: Seq<char>, pm: PackageManager) -> Option<PackageInfoView> {
    match json_at(text, Seq::empty()) {
        Some(ShapeView::Object(_)) => match main_field(text) {
            Some(m) => {
                let main = match m {
                    Some(s) => package_relative(s),
                    None => "./index"@,
                };
                match browser_field(text, main, pm) {
                    Some(subs) => Some(PackageInfoView { main, browser_substitutions: subs }),
                    None => None,
                }
            },
            None => None,
        },
        _ => None,
    }
}

/// A path of a manifest seen from outside of the package in `base`: one
/// that begins with `.` is put behind `base`.
pub open spec fn rebased(path: Seq<char>, base: Seq<char>) -> Seq<char> {
    if is_explicitly_relative(path) {
        appended(base, path)
    } else {
        path
    }
}

/// A substitution seen from outside of the package in `base`.
pub open spec fn rebased_subst(s: SubstView, base: Seq<char>) -> SubstView {
    SubstView {
        from: rebased(s.from, base),
        to: match s.to {
            BrowserSubstitutionView::Ignore => BrowserSubstitutionView::Ignore,
            BrowserSubstitutionView::Replace(p) => BrowserSubstitutionView::Replace(
                rebased(p, base),
            ),
        },
    }
}

/// What a manifest says, seen from outside of the package in `base`.
pub open spec fn based(info: PackageInfoView, base: Seq<char>) -> PackageInfoView {
    PackageInfoView {
        main: appended(base, info.main),
        browser_substitutions: Seq::new(
            info.browser_substitutions.len(),
            |i: int| rebased_subst(info.browser_substitutions[i], base),
        ),
    }
}

/// The substitution for `path` among the first `k`: the last of them that
/// is for a path with the same components.
pub open spec fn substitution_upto(subs: Seq<SubstView>, path: Seq<char>, k: nat) -> Option<
    BrowserSubstitutionView,
>
    decreases k,
{
    if k == 0 {
        None
    } else if same_path(subs[k - 1].from, path) {
        Some(subs[k - 1].to)
    } else {
        substitution_upto(subs, path, (k - 1) as nat)
    }
}

/// The substitution for `path`, if there is one.
pub open spec fn substitution(subs: Seq<SubstView>, path: Seq<char>) -> Option<
    BrowserSubstitutionView,
> {
    substitution_upto(subs, path, subs.len())
}

impl BrowserSubstitution {
    /// The substitution that the JSON text `text` is.
    pub fn from_json(text: &str) -> (r: Option<BrowserSubstitution>)
        ensures
            match substitution_at(text@, Seq::empty()) {
                Some(s) => r matches Some(x) && x@ == s,
                None => r is None,
            },
    {
        proof {
            reveal_strlit("");
            assert(""@ =~= Seq::<char>::empty());
        }
        BrowserSubstitution::at(text, "")
    }

    fn at(text: &str, pointer: &str) -> (r: Option<BrowserSubstitution>)
        ensures
            match substitution_at(text@, pointer@) {
                Some(s) => r matches Some(x) && x@ == s,
                None => r is None,
            },
    {
        match json_shape(text, pointer) {
            Some(Shape::Bool(b)) => if b {
                None
            } else {
                Some(BrowserSubstitution::Ignore)
            },
            Some(Shape::Text(s)) => Some(BrowserSubstitution::Replace(s)),
            _ => None,
        }
    }
}

impl BrowserSubstitutionMap {
    /// The substitutions that the JSON text `text` lists.
    pub fn from_json(text: &str) -> (r: Option<BrowserSubstitutionMap>)
        ensures
            match substitutions_at(text@, Seq::empty()) {
                Some(s) => r matches Some(x) && x@ == s,
                None => r is None,
            },
    {
        proof {
            reveal_strlit("");
            assert(""@ =~= Seq::<char>::empty());
        }
        match json_shape(text, "") {
            Some(Shape::Object(keys)) => BrowserSubstitutionMap::members(text, "", &keys),
            _ => None,
        }
    }

    fn members(text: &str, base: &str, keys: &Vec<String>) -> (r: Option<BrowserSubstitutionMap>)
        ensures
            match substitutions_from(text@, base@, keys.deep_view(), 0, Seq::empty()) {
                Some(s) => r matches Some(x) && x@ == s,
                None => r is None,
            },
    {
        let mut subs: Vec<Subst> = Vec::new();
        let mut i: usize = 0;
        let ghost ks = keys.deep_view();
        let ghost goal = substitutions_from(text@, base@, ks, 0, Seq::empty());
        assert(subs.deep_view() =~= Seq::<SubstView>::empty());
        while i < keys.len()
            invariant
                i <= keys@.len(),
                ks == keys.deep_view(),
                ks.len() == keys@.len(),
                goal == substitutions_from(text@, base@, keys.deep_view(), 0, Seq::empty()),
                substitutions_from(text@, base@, ks, i as nat, subs.deep_view()) == goal,
            decreases keys@.len() - i,
        {
            assert(ks[i as int] == keys@[i as int]@);
            let pointer = member_pointer(base, keys[i].as_str());
            match BrowserSubstitution::at(text, pointer.as_str()) {
                Some(to) => {
                    let ghost before = subs.deep_view();
                    subs.push(Subst { from: keys[i].clone(), to });
                    assert(subs.deep_view() =~= before.push(SubstView { from: ks[i as int], to: to@ }));
                },
                None => {
                    return None;
                },
            }
            i += 1;
        }
        Some(BrowserSubstitutionMap(subs))
    }

    /// The substitution for `path`, if there is one.
    pub fn get(&self, path: &str) -> (r: Option<&BrowserSubstitution>)
        ensures
            match substitution(self@, path@) {
                Some(s) => r matches Some(x) && x@ == s,
                None => r is None,
            },
    {
        let mut k: usize = self.0.len();
        while k > 0
            invariant
                k <= self.0@.len(),
                self@.len() == self.0@.len(),
                substitution_upto(self@, path@, k as nat) == substitution(self@, path@),
            decreases k,
        {
            assert(self@[k - 1] == self.0@[k - 1]@);
            if path_eq(self.0[k - 1].from.as_str(), path) {
                return Some(&self.0[k - 1].to);
            }
            k -= 1;
        }
        None
    }
}

fn rebase(path: &str, base: &str) -> (r: String)
    ensures
        r@ == rebased(path@, base@),
{
    if path_is_explicitly_relative(path) {
        let mut r = base.to_owned();
        append_resolving(&mut r, path);
        r
    } else {
        path.to_owned()
    }
}

impl BrowserField {
    /// The `browser` field of the manifest `text`.
    pub fn from_manifest(text: &str) -> (r: Option<BrowserField>)
        ensures
            match browser_shape(text@) {
                Some(f) => r matches Some(x) && x@ == f,
                None => r is None,
            },
    {
        match json_shape(text, "/browser") {
            Some(Shape::Text(to)) => Some(BrowserField::Main(to)),
            Some(Shape::Object(keys)) => {
                match BrowserSubstitutionMap::members(text, "/browser", &keys) {
                    Some(map) => Some(BrowserField::Complex(map)),
                    None => None,
                }
            },
            _ => Some(BrowserField::Empty),
        }
    }

    /// The substitutions that the field comes to in a package with the main
    /// file `main`.
    pub fn to_map(self, main: &str, pm: PackageManager) -> (map: BrowserSubstitutionMap)
        ensures
            map@ == field_map(self@, main@, pm),
    {
        match self {
            BrowserField::Empty => {
                let map = BrowserSubstitutionMap(Vec::new());
                assert(map@ =~= Seq::<SubstView>::empty());
                map
            },
            BrowserField::Main(to) => {
                let to = make_relative(to);
                let mut subs: Vec<Subst> = Vec::new();
                match pm {
                    PackageManager::Bower => {
                        subs.push(
                            Subst { from: ".".to_owned(), to: BrowserSubstitution::Replace(to.clone()) },
                        );
                    },
                    PackageManager::Npm => {},
                }
                subs.push(Subst { from: main.to_owned(), to: BrowserSubstitution::Replace(to) });
                let map = BrowserSubstitutionMap(subs);
                assert(map@ =~= field_map(self@, main@, pm));
                map
            },
            BrowserField::Complex(map) => map,
        }
    }
}

fn make_relative(path: String) -> (r: String)
    ensures
        r@ == package_relative(path@),
{
    if path_is_explicitly_relative(path.as_str()) {
        path
    } else {
        let mut r = ".".to_owned();
        append_resolving(&mut r, path.as_str());
        r
    }
}

impl PackageInfo {
    fn main_of(text: &str) -> (r: Option<Option<String>>)
        ensures
            match main_field(text@) {
                Some(Some(s)) => r matches Some(Some(x)) && x@ == s,
                Some(None) => r matches Some(None),
                None => r is None,
            },
    {
        match json_shape(text, "/main") {
            Some(Shape::Text(s)) => Some(Some(s)),
            Some(Shape::Array(n)) => {
                let mut found: Option<String> = None;
                let mut i: usize = 0;
                let js = chars_of(".js");
                while i < n
                    invariant
                        i <= n,
                        js@ == ".js"@,
                        json_at(text@, "/main"@) == Some(ShapeView::Array(n as nat)),
                        main_from(
                            text@,
                            n as nat,
                            i as nat,
                            match found {
                                Some(s) => Some(s@),
                                None => None,
                            },
                        ) == main_from(text@, n as nat, 0, None),
                    decreases n - i,
                {
                    let pointer = item_pointer("/main", i);
                    match json_shape(text, pointer.as_str()) {
                        Some(Shape::Text(s)) => {
                            if found.is_none() {
                                let c = chars_of(s.as_str());
                                if chars_end_with(&c, &js) {
                                    found = Some(s);
                                }
                            }
                        },
                        _ => {
                            return None;
                        },
                    }
                    i += 1;
                }
                Some(found)
            },
            _ => Some(None),
        }
    }

    fn browser_of(text: &str, main: &str, pm: PackageManager) -> (r: Option<BrowserSubstitutionMap>)
        ensures
            match browser_field(text@, main@, pm) {
                Some(s) => r matches Some(x) && x@ == s,
                None => r is None,
            },
    {
        match BrowserField::from_manifest(text) {
            Some(field) => Some(field.to_map(main, pm)),
            None => None,
        }
    }

    /// What the manifest `text` says, if it is one.
    pub fn from_json(text: &str, pm: PackageManager) -> (r: Option<PackageInfo>)
        ensures
            match manifest(text@, pm) {
                Some(info) => r matches Some(x) && x@ == info,
                None => r is None,
            },
    {
        proof {
            reveal_strlit("");
            assert(""@ =~= Seq::<char>::empty());
        }
        match json_shape(text, "") {
            Some(Shape::Object(_)) => {
                match PackageInfo::main_of(text) {
                    Some(m) => {
                        let main = match m {
                            Some(s) => make_relative(s),
                            None => "./index".to_owned(),
                        };
                        match PackageInfo::browser_of(text, main.as_str(), pm) {
                            Some(browser_substitutions) => Some(
                                PackageInfo { main, browser_substitutions },
                            ),
                            None => None,
                        }
                    },
                    None => None,
                }
            },
            _ => None,
        }
    }

    /// Puts the package into the directory `base`: the main file and every
    /// path of a substitution that begins with `.` are put behind `base`.
    pub fn set_base(&mut self, base: &str)
        ensures
            final(self)@ == based(old(self)@, base@),
    {
        let mut main = base.to_owned();
        append_resolving(&mut main, self.main.as_str());
        let mut subs: Vec<Subst> = Vec::new();
        let mut i: usize = 0;
        let ghost old_subs = self.browser_substitutions@;
        while i < self.browser_substitutions.0.len()
            invariant
                i <= self.browser_substitutions.0@.len(),
                old_subs == self.browser_substitutions@,
                old_subs.len() == self.browser_substitutions.0@.len(),
                self.main@ == old(self).main@,
                old_subs == old(self).browser_substitutions@,
                main@ == appended(base@, old(self).main@),
                subs@.len() == i,
                forall|k: int| 0 <= k < i ==> (#[trigger] subs@[k])@ == rebased_subst(old_subs[k], base@),
            decreases self.browser_substitutions.0@.len() - i,
        {
            let s = &self.browser_substitutions.0[i];
            assert(old_subs[i as int] == s@);
            let from = rebase(s.from.as_str(), base);
            let to = match &s.to {
                BrowserSubstitution::Ignore => BrowserSubstitution::Ignore,
                BrowserSubstitution::Replace(path) => BrowserSubstitution::Replace(
                    rebase(path.as_str(), base),
                ),
            };
            subs.push(Subst { from, to });
            i += 1;
        }
        self.main = main;
        self.browser_substitutions = BrowserSubstitutionMap(subs);
        assert(self.browser_substitutions@ =~= based(old(self)@, base@).browser_substitutions);
    }
}

/// What is known of the manifest of a directory: what it says, or that
/// there is none.
#[derive(Debug, Clone)]
pub struct Manifest {
    pub dir: String,
    pub info: Option<PackageInfo>,
}

pub struct ManifestView {
    pub dir: Seq<char>,
    pub info: Option<PackageInfoView>,
}

impl View for Manifest {
    type V = ManifestView;

    open spec fn view(&self) -> ManifestView {
        ManifestView {
            dir: self.dir@,
            info: match self.info {
                Some(i) => Some(i@),
                None => None,
            },
        }
    }
}

impl DeepView for Manifest {
    type V = ManifestView;

    open spec fn deep_view(&self) -> ManifestView {
        self@
    }
}

/// The manifests that were looked for, each directory once.
#[derive(Debug, Clone, Default)]
pub struct PackageCache {
    pub pkgs: Vec<Manifest>,
}

impl View for PackageCache {
    type V = Seq<ManifestView>;

    open spec fn view(&self) -> Seq<ManifestView> {
        self.pkgs.deep_view()
    }
}

/// The first entry for the directory `dir` from index `i` on.
pub open spec fn entry_from(pkgs: Seq<ManifestView>, dir: Seq<char>, i: nat) -> Option<int>
    decreases pkgs.len() - i,
{
    if i >= pkgs.len() {
        None
    } else if same_path(pkgs[i as int].dir, dir) {
        Some(i as int)
    } else {
        entry_from(pkgs, dir, i + 1)
    }
}

/// What is known of the manifest of `dir`: nothing; that there is none; or
/// what it says.
pub open spec fn known(pkgs: Seq<ManifestView>, dir: Seq<char>) -> Option<Option<PackageInfoView>> {
    match entry_from(pkgs, dir, 0) {
        Some(i) => Some(pkgs[i].info),
        None => None,
    }
}

/// What the first of the given texts that is a manifest says, put into the
/// directory `dir`. A text that is missing is no manifest.
pub open spec fn first_manifest(
    texts: Seq<Option<Seq<char>>>,
    dir: Seq<char>,
    pm: PackageManager,
    i: nat,
) -> Option<PackageInfoView>
    decreases texts.len() - i,
{
    if i >= texts.len() {
        None
    } else {
        match texts[i as int] {
            Some(text) => match manifest(text, pm) {
                Some(info) => Some(based(info, dir)),
                None => first_manifest(texts, dir, pm, i + 1),
            },
            None => first_manifest(texts, dir, pm, i + 1),
        }
    }
}

/// Texts as values.
pub open spec fn texts_view(texts: Seq<Option<String>>) -> Seq<Option<Seq<char>>> {
    Seq::new(
        texts.len(),
        |i: int|
            match texts[i] {
                Some(s) => Some(s@),
                None => None,
            },
    )
}

/// A question about the disk.
#[derive(Debug, Clone, PartialEq, Eq)]
pub enum Query {
    /// Whether this path is a file.
    IsFile(String),
    /// What the manifest files of this directory hold.
    Manifest(String),
}

pub enum QueryView {
    IsFile(Seq<char>),
    Manifest(Seq<char>),
}

impl View for Query {
    type V = QueryView;

    open spec fn view(&self) -> QueryView {
        match self {
            Query::IsFile(p) => QueryView::IsFile(p@),
            Query::Manifest(d) => QueryView::Manifest(d@),
        }
    }
}

/// The outcome of a step that may need to know more of the disk: the
/// result, or the question to answer before the step is taken again.
#[derive(Debug)]
pub enum Step<T> {
    Done(T),
    Ask(Query),
}

/// The outcome of a step, as a value.
pub enum Answer<T> {
    Done(T),
    Ask(QueryView),
}

/// The manifest nearest to `dir`: that of `dir` or of the closest directory
/// above it that has one. Directories that hold installed packages are
/// passed over.
pub open spec fn nearest(pkgs: Seq<ManifestView>, dir: Seq<char>, pm: PackageManager) -> Answer<
    Option<PackageInfoView>,
>
    decreases dir.len(),
{
    let passed = file_name(dir) == Some(pm.dir_name());
    if !passed && known(pkgs, dir).is_none() {
        Answer::Ask(QueryView::Manifest(dir))
    } else if !passed && known(pkgs, dir).unwrap().is_some() {
        Answer::Done(known(pkgs, dir).unwrap())
    } else {
        match parent(dir) {
            Some(p) => if p.len() < dir.len() {
                nearest(pkgs, p, pm)
            } else {
                Answer::Done(None)
            },
            None => Answer::Done(None),
        }
    }
}

impl PackageCache {
    /// The index of the entry for `dir`, if there is one.
    pub fn find(&self, dir: &str) -> (r: Option<usize>)
        ensures
            r.is_some() == entry_from(self@, dir@, 0).is_some(),
            r matches Some(i) ==> entry_from(self@, dir@, 0) == Some(i as int) && i
                < self.pkgs@.len(),
    {
        let mut i: usize = 0;
        while i < self.pkgs.len()
            invariant
                i <= self.pkgs@.len(),
                self@.len() == self.pkgs@.len(),
                entry_from(self@, dir@, i as nat) == entry_from(self@, dir@, 0),
            decreases self.pkgs@.len() - i,
        {
            assert(self@[i as int] == self.pkgs@[i as int]@);
            if path_eq(self.pkgs[i].dir.as_str(), dir) {
                return Some(i);
            }
            i += 1;
        }
        None
    }

    /// What is known of the manifest of `dir`.
    pub fn package_info(&self, dir: &str) -> (r: Step<Option<&PackageInfo>>)
        ensures
            match known(self@, dir@) {
                None => r matches Step::Ask(q) && q@ == QueryView::Manifest(dir@),
                Some(None) => r matches Step::Done(None),
                Some(Some(info)) => r matches Step::Done(Some(i)) && i@ == info,
            },
    {
        match self.find(dir) {
            Some(i) => {
                assert(self@[i as int] == self.pkgs@[i as int]@);
                match &self.pkgs[i].info {
                    Some(info) => Step::Done(Some(info)),
                    None => Step::Done(None),
                }
            },
            None => Step::Ask(Query::Manifest(dir.to_owned())),
        }
    }

    /// The manifest nearest to `dir`.
    pub fn nearest_package_info(&self, dir: &str, package_manager: PackageManager) -> (r: Step<
        Option<&PackageInfo>,
    >)
        ensures
            match nearest(self@, dir@, package_manager) {
                Answer::Ask(q) => r matches Step::Ask(x) && x@ == q,
                Answer::Done(None) => r matches Step::Done(None),
                Answer::Done(Some(info)) => r matches Step::Done(Some(i)) && i@ == info,
            },
    {
        let mut cur = dir.to_owned();
        loop
            invariant
                nearest(self@, cur@, package_manager) == nearest(self@, dir@, package_manager),
            decreases cur@.len(),
        {
            let passed = match path_file_name(cur.as_str()) {
                Some(s) => str_eq(s.as_str(), package_manager.dir()),
                None => false,
            };
            if !passed {
                match self.package_info(cur.as_str()) {
                    Step::Ask(q) => {
                        return Step::Ask(q);
                    },
                    Step::Done(Some(info)) => {
                        return Step::Done(Some(info));
                    },
                    Step::Done(None) => {},
                }
            }
            if !pop(&mut cur) {
                return Step::Done(None);
            }
        }
    }

    /// Takes down what the manifest files of `dir` hold: `texts` has the
    /// text of each candidate file in the order of preference, or nothing
    /// where the file could not be read. The first text that is a manifest
    /// counts. What is known of `dir` already stays.
    pub fn load(&mut self, dir: &str, texts: &Vec<Option<String>>, package_manager: PackageManager)
        ensures
            known(old(self)@, dir@).is_some() ==> final(self)@ == old(self)@,
            known(old(self)@, dir@).is_none() ==> final(self)@ == old(self)@.push(
                ManifestView {
                    dir: dir@,
                    info: first_manifest(texts_view(texts@), dir@, package_manager, 0),
                },
            ),
    {
        if self.find(dir).is_some() {
            return ;
        }
        let mut found: Option<PackageInfo> = None;
        let mut i: usize = 0;
        let ghost ts = texts_view(texts@);
        while i < texts.len() && found.is_none()
            invariant
                i <= texts@.len(),
                ts == texts_view(texts@),
                match found {
                    Some(info) => first_manifest(ts, dir@, package_manager, 0) == Some(info@),
                    None => first_manifest(ts, dir@, package_manager, i as nat) == first_manifest(
                        ts,
                        dir@,
                        package_manager,
                        0,
                    ),
                },
            decreases texts@.len() - i + if found.is_none() { 1int } else { 0int },
        {
            match &texts[i] {
                Some(text) => {
                    match PackageInfo::from_json(text.as_str(), package_manager) {
                        Some(info) => {
                            let mut info = info;
                            info.set_base(dir);
                            found = Some(info);
                        },
                        None => {
                            i += 1;
                        },
                    }
                },
                None => {
                    i += 1;
                },
            }
        }
        let ghost before = self@;
        self.pkgs.push(Manifest { dir: dir.to_owned(), info: found });
        assert(self@ =~= before.push(
            ManifestView {
                dir: dir@,
                info: first_manifest(texts_view(texts@), dir@, package_manager, 0),
            },
        ));
    }
}

/// The entry that a directory is found at is among the entries.
pub proof fn lemma_entry_from(pkgs: Seq<ManifestView>, dir: Seq<char>, i: nat)
    ensures
        entry_from(pkgs, dir, i) matches Some(j) ==> i <= j < pkgs.len(),
    decreases pkgs.len() - i,
{
    if i < pkgs.len() && !same_path(pkgs[i as int].dir, dir) {
        lemma_entry_from(pkgs, dir, i + 1);
    }
}

/// The nearest manifest is one of those that were read.
pub proof fn lemma_nearest_is_known(pkgs: Seq<ManifestView>, dir: Seq<char>, pm: PackageManager)
    ensures
        nearest(pkgs, dir, pm) matches Answer::Done(Some(info)) ==> exists|j: int|
            0 <= j < pkgs.len() && (#[trigger] pkgs[j]).info == Some(info),
    decreases dir.len(),
{
    let passed = file_name(dir) == Some(pm.dir_name());
    if !passed && known(pkgs, dir).is_none() {
    } else if !passed && known(pkgs, dir).unwrap().is_some() {
        lemma_entry_from(pkgs, dir, 0);
        let j = entry_from(pkgs, dir, 0).unwrap();
        assert(pkgs[j].info == known(pkgs, dir).unwrap());
    } else {
        match parent(dir) {
            Some(p) => {
                if p.len() < dir.len() {
                    lemma_nearest_is_known(pkgs, p, pm);
                }
            },
            None => {},
        }
    }
}

/// The main file of a package in a directory with an absolute path is an
/// absolute path, the paths being short enough to be held.
pub proof fn lemma_based_absolute(info: PackageInfoView, base: Seq<char>)
    requires
        is_absolute(base),
        info.main.len() <= usize::MAX,
        base.len() + parts(info.main).len() * (info.main.len() + 1) <= usize::MAX,
    ensures
        is_absolute(based(info, base).main),
{
    lemma_appended_absolute(base, info.main);
}

} // verus!
