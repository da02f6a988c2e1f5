//! Paths as text: components, joining and normalizing without touching the
//! disk, relative paths, and the order of paths.
//!
//! A path is a string with `/` between its components. Repeated separators,
//! a separator at the end, and `.` anywhere but at the start of a relative
//! path mean nothing.

use vstd::prelude::*;
use crate::text::{chars_of, push_range};

verus! {

/// The kind of a path component.
#[derive(Debug, Clone, Copy, PartialEq, Eq, Structural)]
pub enum Kind {
    /// The root, `/` at the start.
    RootDir,
    /// `.` at the start of a relative path.
    CurDir,
    /// `..`
    ParentDir,
    /// A name.
    Normal,
}

/// A component of a path: its kind, and where its text lies in the path.
#[derive(Debug, Clone, Copy, PartialEq, Eq, Structural)]
pub struct Part {
    pub kind: Kind,
    pub start: usize,
    pub end: usize,
}

/// The component that the segment `p[i..j]` is, if it is one. A segment is
/// what stands between two separators. `first` says that it is the first
/// segment of a relative path.
pub open spec fn part_of(p: Seq<char>, i: int, j: int, first: bool) -> Seq<Part> {
    if j <= i {
        Seq::empty()
    } else if j == i + 1 && p[i] == '.' {
        if first {
            seq![Part { kind: Kind::CurDir, start: i as usize, end: j as usize }]
        } else {
            Seq::empty()
        }
    } else if j == i + 2 && p[i] == '.' && p[i + 1] == '.' {
        seq![Part { kind: Kind::ParentDir, start: i as usize, end: j as usize }]
    } else {
        seq![Part { kind: Kind::Normal, start: i as usize, end: j as usize }]
    }
}

/// The components from the segment that begins at `start` on, read from the
/// character at `i` of that segment.
pub open spec fn scan(p: Seq<char>, start: int, i: int, first: bool) -> Seq<Part>
    decreases p.len() - i,
{
    if i >= p.len() {
        part_of(p, start, p.len() as int, first)
    } else if p[i] == '/' {
        part_of(p, start, i, first) + scan(p, i + 1, i + 1, false)
    } else {
        scan(p, start, i + 1, first)
    }
}

/// The components of a path.
pub open spec fn parts(p: Seq<char>) -> Seq<Part> {
    if p.len() > 0 && p[0] == '/' {
        seq![Part { kind: Kind::RootDir, start: 0, end: 1 }] + scan(p, 1, 1, false)
    } else {
        scan(p, 0, 0, true)
    }
}

/// The text of a component.
pub open spec fn text_of(p: Seq<char>, part: Part) -> Seq<char> {
    p.subrange(part.start as int, part.end as int)
}

/// Components lie in the path, one after the other.
pub open spec fn in_order(ps: Seq<Part>, len: int) -> bool {
    &&& forall|k: int| 0 <= k < ps.len() ==> (#[trigger] ps[k]).start < ps[k].end <= len
    &&& forall|k: int, l: int| 0 <= k < l < ps.len() ==> (#[trigger] ps[k]).end <= (#[trigger] ps[l]).start
}

fn push_part(ps: &mut Vec<Part>, p: &Vec<char>, start: usize, end: usize, first: bool)
    requires
        start <= end <= p@.len(),
        in_order(old(ps)@, p@.len() as int),
        forall|k: int| 0 <= k < old(ps)@.len() ==> (#[trigger] old(ps)@[k]).end <= start,
    ensures
        final(ps)@ == old(ps)@ + part_of(p@, start as int, end as int, first),
        in_order(final(ps)@, p@.len() as int),
        forall|k: int| 0 <= k < final(ps)@.len() ==> (#[trigger] final(ps)@[k]).end <= end,
{
    if end > start {
        if end - start == 1 && p[start] == '.' {
            if first {
                ps.push(Part { kind: Kind::CurDir, start, end });
            }
        } else if end - start == 2 && p[start] == '.' && p[start + 1] == '.' {
            ps.push(Part { kind: Kind::ParentDir, start, end });
        } else {
            ps.push(Part { kind: Kind::Normal, start, end });
        }
    }
    assert(ps@ =~= old(ps)@ + part_of(p@, start as int, end as int, first));
}

/// The components of a path, with their places in it.
pub fn path_parts(p: &Vec<char>) -> (ps: Vec<Part>)
    ensures
        ps@ == parts(p@),
        in_order(ps@, p@.len() as int),
{
    let mut ps: Vec<Part> = Vec::new();
    let n = p.len();
    let mut start: usize = 0;
    let mut first = true;
    if n > 0 && p[0] == '/' {
        ps.push(Part { kind: Kind::RootDir, start: 0, end: 1 });
        start = 1;
        first = false;
    }
    let mut i: usize = start;
    while i < n
        invariant
            n == p@.len(),
            start <= i <= n,
            ps@ + scan(p@, start as int, i as int, first) == parts(p@),
            in_order(ps@, p@.len() as int),
            forall|k: int| 0 <= k < ps@.len() ==> (#[trigger] ps@[k]).end <= start,
        decreases n - i,
    {
        if p[i] == '/' {
            let ghost before = ps@;
            push_part(&mut ps, p, start, i, first);
            assert(before + (part_of(p@, start as int, i as int, first) + scan(
                p@,
                i + 1,
                i + 1,
                false,
            )) =~= ps@ + scan(p@, i + 1, i + 1, false));
            start = i + 1;
            first = false;
        }
        i += 1;
    }
    push_part(&mut ps, p, start, n, first);
    ps
}

/// Whether a path ends in a separator.
pub open spec fn ends_in_sep(p: Seq<char>) -> bool {
    p.len() > 0 && p.last() == '/'
}

/// `path` with `part` pushed onto it: an absolute `part` takes the place of
/// `path`; anything else is added to it, after a separator unless `path` is
/// empty or ends in one.
pub open spec fn pushed(path: Seq<char>, part: Seq<char>) -> Seq<char> {
    if part.len() > 0 && part[0] == '/' {
        part
    } else if path.len() == 0 || ends_in_sep(path) {
        path + part
    } else {
        path + seq!['/'] + part
    }
}

/// How much of a path is its parent: up to the end of the component before
/// the last. The root and the empty path have no parent.
pub open spec fn parent_len(p: Seq<char>) -> Option<int> {
    let ps = parts(p);
    if ps.len() == 0 || ps.last().kind == Kind::RootDir {
        None
    } else if ps.len() == 1 {
        Some(0)
    } else {
        Some(ps[ps.len() - 2].end as int)
    }
}

/// The parent of a path, if it has one.
pub open spec fn parent(p: Seq<char>) -> Option<Seq<char>> {
    match parent_len(p) {
        Some(n) => Some(p.subrange(0, n)),
        None => None,
    }
}

/// A path without its last component; the root and the empty path stay.
pub open spec fn popped(p: Seq<char>) -> Seq<char> {
    match parent(p) {
        Some(q) => q,
        None => p,
    }
}

/// The last component of a path, if it is a name.
pub open spec fn file_name(p: Seq<char>) -> Option<Seq<char>> {
    let ps = parts(p);
    if ps.len() > 0 && ps.last().kind == Kind::Normal {
        Some(text_of(p, ps.last()))
    } else {
        None
    }
}

/// Whether a path begins at the root.
pub open spec fn is_absolute(p: Seq<char>) -> bool {
    p.len() > 0 && p[0] == '/'
}

/// Pushes `part` onto `path`.
pub fn push(path: &mut String, part: &str)
    ensures
        final(path)@ == pushed(old(path)@, part@),
{
    let q = chars_of(part);
    if q.len() > 0 && q[0] == '/' {
        *path = part.to_owned();
        return ;
    }
    let p = chars_of(path.as_str());
    if p.len() > 0 && p[p.len() - 1] != '/' {
        path.append("/");
        proof {
            reveal_strlit("/");
            assert("/"@ =~= seq!['/']);
        }
    }
    path.append(part);
}

/// The parent of `path`, if it has one.
pub fn path_parent(path: &str) -> (r: Option<String>)
    ensures
        match parent(path@) {
            Some(q) => r matches Some(s) && s@ == q && q.len() < path@.len(),
            None => r is None,
        },
{
    let p = chars_of(path);
    let ps = path_parts(&p);
    let n = ps.len();
    if n == 0 || ps[n - 1].kind == Kind::RootDir {
        return None;
    }
    let len = if n == 1 {
        0
    } else {
        ps[n - 2].end
    };
    let mut s = String::new();
    push_range(&mut s, &p, 0, len);
    assert(s@ =~= p@.subrange(0, len as int));
    Some(s)
}

/// Takes the last component off `path`. Says whether there was one to take.
pub fn pop(path: &mut String) -> (r: bool)
    ensures
        final(path)@ == popped(old(path)@),
        r == parent(old(path)@).is_some(),
        r ==> final(path)@.len() < old(path)@.len(),
{
    match path_parent(path.as_str()) {
        Some(q) => {
            *path = q;
            true
        },
        None => false,
    }
}

/// The last component of `path`, if it is a name.
pub fn path_file_name(path: &str) -> (r: Option<String>)
    ensures
        match file_name(path@) {
            Some(q) => r matches Some(s) && s@ == q,
            None => r is None,
        },
{
    let p = chars_of(path);
    let ps = path_parts(&p);
    let n = ps.len();
    if n > 0 && ps[n - 1].kind == Kind::Normal {
        let mut s = String::new();
        push_range(&mut s, &p, ps[n - 1].start, ps[n - 1].end);
        assert(s@ =~= text_of(p@, ps@.last()));
        Some(s)
    } else {
        None
    }
}

/// Whether `path` begins at the root.
pub fn path_is_absolute(path: &str) -> (r: bool)
    ensures
        r == is_absolute(path@),
{
    let p = chars_of(path);
    p.len() > 0 && p[0] == '/'
}

/// A path after one more component of `more` was applied to it: the root
/// starts over, `.` changes nothing, `..` takes the last component off, and
/// a name is pushed.
pub open spec fn step(x: Seq<char>, more: Seq<char>, part: Part) -> Seq<char> {
    match part.kind {
        Kind::RootDir => seq!['/'],
        Kind::CurDir => x,
        Kind::ParentDir => popped(x),
        Kind::Normal => pushed(x, text_of(more, part)),
    }
}

/// A path after the first `k` components of `more` were applied to it.
pub open spec fn resolve_upto(x: Seq<char>, more: Seq<char>, k: nat) -> Seq<char>
    decreases k,
{
    if k == 0 {
        x
    } else {
        step(resolve_upto(x, more, (k - 1) as nat), more, parts(more)[k - 1])
    }
}

/// `x` with `more` appended component by component, resolving `.` and `..`
/// as it goes.
pub open spec fn appended(x: Seq<char>, more: Seq<char>) -> Seq<char> {
    resolve_upto(x, more, parts(more).len())
}

/// Whether a path begins with `.` or `..`.
pub open spec fn is_explicitly_relative(p: Seq<char>) -> bool {
    let ps = parts(p);
    ps.len() > 0 && (ps[0].kind == Kind::CurDir || ps[0].kind == Kind::ParentDir)
}

/// Whether a path ends with `.` or `..`.
pub open spec fn ends_in_dots(p: Seq<char>) -> bool {
    let ps = parts(p);
    ps.len() > 0 && (ps.last().kind == Kind::CurDir || ps.last().kind == Kind::ParentDir)
}

/// A path with its file name replaced, or with the name pushed where it has
/// none.
pub open spec fn with_file_name(p: Seq<char>, name: Seq<char>) -> Seq<char> {
    pushed(
        if file_name(p).is_some() {
            popped(p)
        } else {
            p
        },
        name,
    )
}

/// The index of the last `.` among the first `k` characters, if there is
/// one.
pub open spec fn last_dot(f: Seq<char>, k: nat) -> Option<int>
    decreases k,
{
    if k == 0 {
        None
    } else if f[k - 1] == '.' {
        Some(k - 1)
    } else {
        last_dot(f, (k - 1) as nat)
    }
}

/// The extension of a path: what follows the last `.` of the file name,
/// unless the name begins with that `.` or has none.
pub open spec fn extension(p: Seq<char>) -> Option<Seq<char>> {
    match file_name(p) {
        Some(f) => match last_dot(f, f.len()) {
            Some(i) => if i > 0 {
                Some(f.subrange(i + 1, f.len() as int))
            } else {
                None
            },
            None => None,
        },
        None => None,
    }
}

/// A component as a value: its kind and its text.
pub struct Comp {
    pub kind: Kind,
    pub text: Seq<char>,
}

/// The components of a path as values.
pub open spec fn comps(p: Seq<char>) -> Seq<Comp> {
    Seq::new(parts(p).len(), |k: int| Comp { kind: parts(p)[k].kind, text: text_of(p, parts(p)[k]) })
}

/// Whether two paths have the same components.
pub open spec fn same_path(a: Seq<char>, b: Seq<char>) -> bool {
    comps(a) == comps(b)
}

/// Appends `more` to `path` component by component, resolving `.` and `..`.
pub fn append_resolving(path: &mut String, more: &str)
    ensures
        final(path)@ == appended(old(path)@, more@),
{
    let m = chars_of(more);
    let ps = path_parts(&m);
    let mut k: usize = 0;
    while k < ps.len()
        invariant
            k <= ps@.len(),
            ps@ == parts(m@),
            m@ == more@,
            in_order(ps@, m@.len() as int),
            path@ == resolve_upto(old(path)@, more@, k as nat),
        decreases ps@.len() - k,
    {
        let part = ps[k];
        match part.kind {
            Kind::RootDir => {
                *path = "/".to_owned();
                proof {
                    reveal_strlit("/");
                    assert("/"@ =~= seq!['/']);
                }
            },
            Kind::CurDir => {},
            Kind::ParentDir => {
                pop(path);
            },
            Kind::Normal => {
                let mut name = String::new();
                push_range(&mut name, &m, part.start, part.end);
                assert(name@ =~= text_of(m@, part));
                push(path, name.as_str());
            },
        }
        k += 1;
    }
}

/// Puts `base` before `path`: `base` with `path` appended component by
/// component.
pub fn prepend_resolving(path: &mut String, base: &str)
    ensures
        final(path)@ == appended(base@, old(path)@),
{
    let mut tmp = base.to_owned();
    append_resolving(&mut tmp, path.as_str());
    *path = tmp;
}

/// Whether `path` begins with `.` or `..`.
pub fn path_is_explicitly_relative(path: &str) -> (r: bool)
    ensures
        r == is_explicitly_relative(path@),
{
    let p = chars_of(path);
    let ps = path_parts(&p);
    ps.len() > 0 && (ps[0].kind == Kind::CurDir || ps[0].kind == Kind::ParentDir)
}

/// Whether `path` ends with `.` or `..`.
pub fn path_ends_in_dots(path: &str) -> (r: bool)
    ensures
        r == ends_in_dots(path@),
{
    let p = chars_of(path);
    let ps = path_parts(&p);
    let n = ps.len();
    n > 0 && (ps[n - 1].kind == Kind::CurDir || ps[n - 1].kind == Kind::ParentDir)
}

/// Replaces the file name of `path`, or pushes the name where it has none.
pub fn set_file_name(path: &mut String, name: &str)
    ensures
        final(path)@ == with_file_name(old(path)@, name@),
{
    if path_file_name(path.as_str()).is_some() {
        pop(path);
    }
    push(path, name);
}

/// `path` with `part` pushed onto it.
pub fn join(path: &str, part: &str) -> (r: String)
    ensures
        r@ == pushed(path@, part@),
{
    let mut r = path.to_owned();
    push(&mut r, part);
    r
}

/// The extension of `path`.
pub fn path_extension(path: &str) -> (r: Option<String>)
    ensures
        match extension(path@) {
            Some(e) => r matches Some(s) && s@ == e,
            None => r is None,
        },
{
    match path_file_name(path) {
        Some(name) => {
            let f = chars_of(name.as_str());
            let mut k: usize = f.len();
            while k > 0 && f[k - 1] != '.'
                invariant
                    k <= f@.len(),
                    last_dot(f@, k as nat) == last_dot(f@, f@.len()),
                decreases k,
            {
                k -= 1;
            }
            if k > 1 {
                let mut s = String::new();
                push_range(&mut s, &f, k, f.len());
                assert(s@ =~= f@.subrange(k as int, f@.len() as int));
                Some(s)
            } else {
                None
            }
        },
        None => None,
    }
}

/// Whether `a[i..j]` and `b[k..l]` hold the same text.
pub fn range_eq(a: &Vec<char>, i: usize, j: usize, b: &Vec<char>, k: usize, l: usize) -> (r: bool)
    requires
        i <= j <= a@.len(),
        k <= l <= b@.len(),
    ensures
        r == (a@.subrange(i as int, j as int) == b@.subrange(k as int, l as int)),
{
    let ghost x = a@.subrange(i as int, j as int);
    let ghost y = b@.subrange(k as int, l as int);
    if j - i != l - k {
        assert(x.len() != y.len());
        return false;
    }
    let mut d: usize = 0;
    while d < j - i
        invariant
            i <= j <= a@.len(),
            k <= l <= b@.len(),
            j - i == l - k,
            d <= j - i,
            x == a@.subrange(i as int, j as int),
            y == b@.subrange(k as int, l as int),
            forall|e: int| 0 <= e < d ==> x[e] == y[e],
        decreases j - i - d,
    {
        if a[i + d] != b[k + d] {
            assert(x[d as int] != y[d as int]);
            return false;
        }
        d += 1;
    }
    assert(x =~= y);
    true
}

/// Whether two paths have the same components.
pub fn path_eq(a: &str, b: &str) -> (r: bool)
    ensures
        r == same_path(a@, b@),
{
    let x = chars_of(a);
    let y = chars_of(b);
    let ps = path_parts(&x);
    let qs = path_parts(&y);
    if ps.len() != qs.len() {
        assert(comps(x@).len() != comps(y@).len());
        return false;
    }
    let mut k: usize = 0;
    while k < ps.len()
        invariant
            k <= ps@.len(),
            ps@.len() == qs@.len(),
            x@ == a@,
            y@ == b@,
            ps@ == parts(x@),
            qs@ == parts(y@),
            in_order(ps@, x@.len() as int),
            in_order(qs@, y@.len() as int),
            forall|e: int| 0 <= e < k ==> comps(x@)[e] == comps(y@)[e],
        decreases ps@.len() - k,
    {
        let p = ps[k];
        let q = qs[k];
        if p.kind != q.kind || !range_eq(&x, p.start, p.end, &y, q.start, q.end) {
            assert(comps(x@)[k as int] != comps(y@)[k as int]);
            return false;
        }
        k += 1;
    }
    assert(comps(x@) =~= comps(y@));
    true
}

/// A component of a path: its kind and its text.
#[derive(Debug, Clone, PartialEq, Eq)]
pub struct Component {
    pub kind: Kind,
    pub text: String,
}

impl View for Component {
    type V = Comp;

    open spec fn view(&self) -> Comp {
        Comp { kind: self.kind, text: self.text@ }
    }
}

impl DeepView for Component {
    type V = Comp;

    open spec fn deep_view(&self) -> Comp {
        self@
    }
}

/// The components of `path`.
pub fn components(path: &str) -> (cs: Vec<Component>)
    ensures
        cs.deep_view() == comps(path@),
{
    let p = chars_of(path);
    let ps = path_parts(&p);
    let mut cs: Vec<Component> = Vec::new();
    let mut k: usize = 0;
    while k < ps.len()
        invariant
            k <= ps@.len(),
            p@ == path@,
            ps@ == parts(p@),
            in_order(ps@, p@.len() as int),
            cs@.len() == k,
            forall|e: int| 0 <= e < k ==> (#[trigger] cs@[e])@ == comps(p@)[e],
        decreases ps@.len() - k,
    {
        let mut text = String::new();
        push_range(&mut text, &p, ps[k].start, ps[k].end);
        cs.push(Component { kind: ps[k].kind, text });
        k += 1;
    }
    assert(cs.deep_view() =~= comps(path@));
    cs
}

/// The component `..`.
pub open spec fn parent_comp() -> Comp {
    Comp { kind: Kind::ParentDir, text: seq!['.', '.'] }
}

/// So many components `..`.
pub open spec fn parents(n: nat) -> Seq<Comp> {
    Seq::new(n, |i: int| parent_comp())
}

/// The components that lead from `b` to `a`, after those in `acc`, with the
/// components before index `i` dealt with: what the two paths share at
/// their start is dropped; for what is left of `b` the path goes up, and
/// then down along what is left of `a`. Nothing leads out of a `..` in `b`.
pub open spec fn rel(a: Seq<Comp>, b: Seq<Comp>, i: int, acc: Seq<Comp>) -> Option<Seq<Comp>>
    decreases
            (if i < b.len() {
                b.len() - i
            } else {
                0
            }),
{
    if i < 0 {
        None
    } else if i >= b.len() {
        Some(acc + a.subrange(if i <= a.len() { i } else { a.len() as int }, a.len() as int))
    } else if i >= a.len() {
        rel(a, b, i + 1, acc.push(parent_comp()))
    } else if acc.len() == 0 && a[i] == b[i] {
        rel(a, b, i + 1, acc)
    } else if b[i].kind == Kind::CurDir {
        rel(a, b, i + 1, acc.push(a[i]))
    } else if b[i].kind == Kind::ParentDir {
        None
    } else {
        Some(acc + parents((b.len() - i) as nat) + a.subrange(i, a.len() as int))
    }
}

/// The path made of the first `k` of the given components.
pub open spec fn render_upto(cs: Seq<Comp>, k: nat) -> Seq<char>
    decreases k,
{
    if k == 0 {
        Seq::empty()
    } else {
        pushed(render_upto(cs, (k - 1) as nat), cs[k - 1].text)
    }
}

/// The path made of the given components.
pub open spec fn render(cs: Seq<Comp>) -> Seq<char> {
    render_upto(cs, cs.len())
}

/// The path that leads from `base` to `p`. An absolute path is itself
/// relative to a relative one; a relative path has no way from an absolute
/// one.
pub open spec fn relative(p: Seq<char>, base: Seq<char>) -> Option<Seq<char>> {
    if is_absolute(p) != is_absolute(base) {
        if is_absolute(p) {
            Some(p)
        } else {
            None
        }
    } else {
        match rel(comps(p), comps(base), 0, Seq::empty()) {
            Some(cs) => Some(render(cs)),
            None => None,
        }
    }
}

fn render_path(cs: &Vec<Component>) -> (r: String)
    ensures
        r@ == render(cs.deep_view()),
{
    let mut r = String::new();
    let mut k: usize = 0;
    while k < cs.len()
        invariant
            k <= cs@.len(),
            r@ == render_upto(cs.deep_view(), k as nat),
        decreases cs@.len() - k,
    {
        assert(cs.deep_view()[k as int] == cs@[k as int]@);
        push(&mut r, cs[k].text.as_str());
        k += 1;
    }
    r
}

fn component_eq(x: &Component, y: &Component) -> (r: bool)
    ensures
        r == (x@ == y@),
{
    x.kind == y.kind && crate::text::str_eq(x.text.as_str(), y.text.as_str())
}

fn push_rest(acc: &mut Vec<Component>, a: &Vec<Component>, from: usize)
    requires
        from <= a@.len(),
    ensures
        final(acc).deep_view() == old(acc).deep_view() + a.deep_view().subrange(
            from as int,
            a@.len() as int,
        ),
{
    let mut k: usize = from;
    assert(old(acc).deep_view() + a.deep_view().subrange(from as int, from as int) =~= old(
        acc,
    ).deep_view());
    while k < a.len()
        invariant
            from <= k <= a@.len(),
            acc.deep_view() == old(acc).deep_view() + a.deep_view().subrange(from as int, k as int),
        decreases a@.len() - k,
    {
        let ghost before = acc.deep_view();
        acc.push(Component { kind: a[k].kind, text: a[k].text.clone() });
        assert(acc.deep_view() =~= before.push(a@[k as int]@));
        assert(a.deep_view()[k as int] == a@[k as int]@);
        k += 1;
        assert(acc.deep_view() =~= old(acc).deep_view() + a.deep_view().subrange(
            from as int,
            k as int,
        ));
    }
}

fn parent_component() -> (c: Component)
    ensures
        c@ == parent_comp(),
{
    proof {
        reveal_strlit("..");
        assert(".."@ =~= seq!['.', '.']);
    }
    Component { kind: Kind::ParentDir, text: "..".to_owned() }
}

/// The path that leads from `base` to `path`.
pub fn relative_from(path: &str, base: &str) -> (r: Option<String>)
    ensures
        match relative(path@, base@) {
            Some(q) => r matches Some(s) && s@ == q,
            None => r is None,
        },
{
    let abs = path_is_absolute(path);
    if abs != path_is_absolute(base) {
        if abs {
            return Some(path.to_owned());
        } else {
            return None;
        }
    }
    let a = components(path);
    let b = components(base);
    let mut acc: Vec<Component> = Vec::new();
    let mut i: usize = 0;
    let ghost goal = rel(a.deep_view(), b.deep_view(), 0, Seq::empty());
    assert(acc.deep_view() =~= Seq::<Comp>::empty());
    while i < b.len()
        invariant
            i <= b@.len(),
            a.deep_view().len() == a@.len(),
            b.deep_view().len() == b@.len(),
            rel(a.deep_view(), b.deep_view(), i as int, acc.deep_view()) == goal,
            goal == rel(comps(path@), comps(base@), 0, Seq::empty()),
            is_absolute(path@) == is_absolute(base@),
        decreases b@.len() - i,
    {
        let ghost before = acc.deep_view();
        assert(b.deep_view()[i as int] == b@[i as int]@);
        if i >= a.len() {
            acc.push(parent_component());
            assert(acc.deep_view() =~= before.push(parent_comp()));
        } else {
            assert(a.deep_view()[i as int] == a@[i as int]@);
            if acc.len() == 0 && component_eq(&a[i], &b[i]) {
            } else if b[i].kind == Kind::CurDir {
                acc.push(Component { kind: a[i].kind, text: a[i].text.clone() });
                assert(acc.deep_view() =~= before.push(a@[i as int]@));
            } else if b[i].kind == Kind::ParentDir {
                return None;
            } else {
                let mut k: usize = i;
                assert(before + parents(0) =~= before);
                while k < b.len()
                    invariant
                        i <= k <= b@.len(),
                        acc.deep_view() == before + parents((k - i) as nat),
                    decreases b@.len() - k,
                {
                    let ghost x = acc.deep_view();
                    acc.push(parent_component());
                    assert(acc.deep_view() =~= x.push(parent_comp()));
                    k += 1;
                    assert(acc.deep_view() =~= before + parents((k - i) as nat));
                }
                push_rest(&mut acc, &a, i);
                return Some(render_path(&acc));
            }
        }
        i += 1;
    }
    let from = if i <= a.len() {
        i
    } else {
        a.len()
    };
    push_rest(&mut acc, &a, from);
    Some(render_path(&acc))
}

/// Whether `b` is the start of `a`.
pub open spec fn is_prefix(b: Seq<Comp>, a: Seq<Comp>) -> bool {
    b.len() <= a.len() && a.subrange(0, b.len() as int) == b
}

/// `p` without `base` at its start: what is left, from its first component
/// to its last.
pub open spec fn stripped(p: Seq<char>, base: Seq<char>) -> Option<Seq<char>> {
    let k = comps(base).len() as int;
    if is_prefix(comps(base), comps(p)) {
        if k == parts(p).len() {
            Some(Seq::empty())
        } else {
            Some(p.subrange(parts(p)[k].start as int, parts(p).last().end as int))
        }
    } else {
        None
    }
}

/// `path` without `base` at its start, if it starts with it.
pub fn strip_prefix(path: &str, base: &str) -> (r: Option<String>)
    ensures
        match stripped(path@, base@) {
            Some(q) => r matches Some(s) && s@ == q,
            None => r is None,
        },
{
    let x = chars_of(path);
    let y = chars_of(base);
    let ps = path_parts(&x);
    let qs = path_parts(&y);
    let ghost a = comps(x@);
    let ghost b = comps(y@);
    if qs.len() > ps.len() {
        return None;
    }
    let mut k: usize = 0;
    while k < qs.len()
        invariant
            k <= qs@.len() <= ps@.len(),
            x@ == path@,
            y@ == base@,
            a == comps(x@),
            b == comps(y@),
            ps@ == parts(x@),
            qs@ == parts(y@),
            in_order(ps@, x@.len() as int),
            in_order(qs@, y@.len() as int),
            forall|e: int| 0 <= e < k ==> a[e] == b[e],
        decreases qs@.len() - k,
    {
        let p = ps[k];
        let q = qs[k];
        if p.kind != q.kind || !range_eq(&x, p.start, p.end, &y, q.start, q.end) {
            assert(a.subrange(0, b.len() as int)[k as int] != b[k as int]);
            return None;
        }
        k += 1;
    }
    assert(a.subrange(0, b.len() as int) =~= b);
    let mut s = String::new();
    if k < ps.len() {
        push_range(&mut s, &x, ps[k].start, ps[ps.len() - 1].end);
        assert(s@ =~= x@.subrange(ps@[k as int].start as int, ps@.last().end as int));
    }
    Some(s)
}

/// Operations on a path that is held as an owned string.
pub trait PathBufExt {
    fn append_resolving(&mut self, more: &str);

    fn prepend_resolving(&mut self, base: &str);

    fn empty(&mut self);

    fn replace_with(&mut self, that: &str);
}

impl PathBufExt for String {
    /// Appends `more` component by component, resolving `.` and `..`.
    fn append_resolving(&mut self, more: &str)
        ensures
            final(self)@ == appended(old(self)@, more@),
    {
        crate::path_ext::append_resolving(self, more)
    }

    /// Puts `base` before the path.
    fn prepend_resolving(&mut self, base: &str)
        ensures
            final(self)@ == appended(base@, old(self)@),
    {
        crate::path_ext::prepend_resolving(self, base)
    }

    /// Makes the path empty.
    fn empty(&mut self)
        ensures
            final(self)@ == Seq::<char>::empty(),
    {
        *self = String::new();
    }

    /// Makes the path `that`.
    fn replace_with(&mut self, that: &str)
        ensures
            final(self)@ == that@,
    {
        *self = that.to_owned();
    }
}

/// Questions to a path.
pub trait PathExt {
    fn is_explicitly_relative(&self) -> bool;

    fn relative_from(&self, base: &str) -> Option<String>;
}

impl PathExt for String {
    /// Whether the path begins with `.` or `..`.
    fn is_explicitly_relative(&self) -> (r: bool)
        ensures
            r == is_explicitly_relative(self@),
    {
        path_is_explicitly_relative(self.as_str())
    }

    /// The path that leads from `base` to this one.
    fn relative_from(&self, base: &str) -> (r: Option<String>)
        ensures
            match relative(self@, base@) {
                Some(q) => r matches Some(s) && s@ == q,
                None => r is None,
            },
    {
        crate::path_ext::relative_from(self.as_str(), base)
    }
}

/// The place of a kind of component in the order of components.
pub open spec fn rank(k: Kind) -> int {
    match k {
        Kind::RootDir => 0,
        Kind::CurDir => 1,
        Kind::ParentDir => 2,
        Kind::Normal => 3,
    }
}

/// Whether `a` comes before `b` in the order of texts, character by
/// character from index `i` on, a text before those that it begins.
pub open spec fn text_lt(a: Seq<char>, b: Seq<char>, i: int) -> bool
    decreases a.len() - i,
{
    if i < 0 || i >= b.len() {
        false
    } else if i >= a.len() {
        true
    } else if a[i] != b[i] {
        (a[i] as u32) < (b[i] as u32)
    } else {
        text_lt(a, b, i + 1)
    }
}

/// Whether component `x` comes before component `y`: by kind, and among
/// names by text.
pub open spec fn comp_lt(x: Comp, y: Comp) -> bool {
    rank(x.kind) < rank(y.kind) || (x.kind == Kind::Normal && y.kind == Kind::Normal && text_lt(
        x.text,
        y.text,
        0,
    ))
}

/// Whether the components `a` come before the components `b`, component by
/// component from index `i` on.
pub open spec fn comps_lt(a: Seq<Comp>, b: Seq<Comp>, i: int) -> bool
    decreases a.len() - i,
{
    if i < 0 || i >= b.len() {
        false
    } else if i >= a.len() {
        true
    } else if a[i] != b[i] {
        comp_lt(a[i], b[i])
    } else {
        comps_lt(a, b, i + 1)
    }
}

/// Whether path `a` comes before path `b` in the order of paths.
pub open spec fn before(a: Seq<char>, b: Seq<char>) -> bool {
    comps_lt(comps(a), comps(b), 0)
}

/// Of two texts at most one comes before the other.
pub proof fn lemma_text_lt_asymmetric(a: Seq<char>, b: Seq<char>, i: int)
    requires
        text_lt(a, b, i),
    ensures
        !text_lt(b, a, i),
    decreases a.len() - i,
{
    if i < a.len() && i < b.len() && a[i] == b[i] {
        lemma_text_lt_asymmetric(a, b, i + 1);
    }
}

/// Of two component sequences at most one comes before the other.
pub proof fn lemma_comps_lt_asymmetric(a: Seq<Comp>, b: Seq<Comp>, i: int)
    requires
        comps_lt(a, b, i),
    ensures
        !comps_lt(b, a, i),
    decreases a.len() - i,
{
    if i < a.len() && i < b.len() {
        if a[i] == b[i] {
            lemma_comps_lt_asymmetric(a, b, i + 1);
        } else if a[i].kind == Kind::Normal && b[i].kind == Kind::Normal && text_lt(
            a[i].text,
            b[i].text,
            0,
        ) {
            lemma_text_lt_asymmetric(a[i].text, b[i].text, 0);
        }
    }
}

/// Of two paths at most one comes before the other.
pub proof fn lemma_before_asymmetric(a: Seq<char>, b: Seq<char>)
    requires
        before(a, b),
    ensures
        !before(b, a),
{
    lemma_comps_lt_asymmetric(comps(a), comps(b), 0);
}

fn kind_rank(k: Kind) -> (r: u8)
    ensures
        r == rank(k),
{
    match k {
        Kind::RootDir => 0,
        Kind::CurDir => 1,
        Kind::ParentDir => 2,
        Kind::Normal => 3,
    }
}

fn chars_lt(a: &Vec<char>, b: &Vec<char>) -> (r: bool)
    ensures
        r == text_lt(a@, b@, 0),
{
    let mut i: usize = 0;
    while i < a.len() && i < b.len()
        invariant
            i <= a@.len(),
            i <= b@.len(),
            text_lt(a@, b@, i as int) == text_lt(a@, b@, 0),
        decreases a@.len() - i,
    {
        if a[i] != b[i] {
            return (a[i] as u32) < (b[i] as u32);
        }
        i += 1;
    }
    i < b.len()
}

/// Whether the text `a` comes before the text `b`.
pub fn text_before(a: &str, b: &str) -> (r: bool)
    ensures
        r == text_lt(a@, b@, 0),
{
    let x = chars_of(a);
    let y = chars_of(b);
    chars_lt(&x, &y)
}

fn component_lt(x: &Component, y: &Component) -> (r: bool)
    ensures
        r == comp_lt(x@, y@),
{
    let rx = kind_rank(x.kind);
    let ry = kind_rank(y.kind);
    if rx < ry {
        true
    } else if rx == 3 && ry == 3 {
        let a = chars_of(x.text.as_str());
        let b = chars_of(y.text.as_str());
        chars_lt(&a, &b)
    } else {
        false
    }
}

/// Whether `a` comes before `b` in the order of paths.
pub fn path_lt(a: &str, b: &str) -> (r: bool)
    ensures
        r == before(a@, b@),
{
    let x = components(a);
    let y = components(b);
    let mut i: usize = 0;
    while i < x.len() && i < y.len()
        invariant
            i <= x@.len(),
            i <= y@.len(),
            x.deep_view().len() == x@.len(),
            y.deep_view().len() == y@.len(),
            x.deep_view() == comps(a@),
            y.deep_view() == comps(b@),
            comps_lt(x.deep_view(), y.deep_view(), i as int) == comps_lt(
                x.deep_view(),
                y.deep_view(),
                0,
            ),
        decreases x@.len() - i,
    {
        assert(x.deep_view()[i as int] == x@[i as int]@);
        assert(y.deep_view()[i as int] == y@[i as int]@);
        if !component_eq(&x[i], &y[i]) {
            return component_lt(&x[i], &y[i]);
        }
        i += 1;
    }
    i < y.len()
}

/// The text of the last component of a path that has a parent.
pub open spec fn last_text(p: Seq<char>) -> Seq<char> {
    text_of(p, parts(p).last())
}

/// The last component of `path`, which has a parent.
pub fn path_last(path: &str) -> (r: String)
    requires
        parent(path@).is_some(),
    ensures
        r@ == last_text(path@),
{
    let p = chars_of(path);
    let ps = path_parts(&p);
    let n = ps.len();
    let mut s = String::new();
    push_range(&mut s, &p, ps[n - 1].start, ps[n - 1].end);
    assert(s@ =~= text_of(p@, ps@.last()));
    s
}

/// The components that a scan finds lie in the path, at or after the
/// segment that the scan began in, and none is empty.
pub proof fn lemma_scan_bounds(p: Seq<char>, start: int, i: int, first: bool)
    requires
        0 <= start <= i <= p.len() <= usize::MAX,
    ensures
        forall|k: int|
            0 <= k < scan(p, start, i, first).len() ==> start <= (#[trigger] scan(
                p,
                start,
                i,
                first,
            )[k]).start < scan(p, start, i, first)[k].end <= p.len(),
    decreases p.len() - i,
{
    if i >= p.len() {
    } else if p[i] == '/' {
        lemma_scan_bounds(p, i + 1, i + 1, false);
        let head = part_of(p, start, i, first);
        let rest = scan(p, i + 1, i + 1, false);
        assert forall|k: int| 0 <= k < (head + rest).len() implies start <= (#[trigger] (head
            + rest)[k]).start < (head + rest)[k].end <= p.len() by {
            if k >= head.len() {
                assert((head + rest)[k] == rest[k - head.len()]);
            }
        }
    } else {
        lemma_scan_bounds(p, start, i + 1, first);
    }
}

/// The parent of an absolute path is absolute, and no longer than the
/// path; so is an absolute path without its last component.
pub proof fn lemma_popped_absolute(p: Seq<char>)
    requires
        is_absolute(p),
        p.len() <= usize::MAX,
    ensures
        is_absolute(popped(p)),
        popped(p).len() <= p.len(),
{
    lemma_scan_bounds(p, 1, 1, false);
    let ps = parts(p);
    let rest = scan(p, 1, 1, false);
    if ps.len() >= 2 && ps.last().kind != Kind::RootDir {
        let k = ps.len() - 2;
        if k > 0 {
            assert(ps[k] == rest[k - 1]);
        }
        assert(1 <= ps[k].end <= p.len());
    }
    if ps.len() == 1 {
        assert(ps.last().kind == Kind::RootDir);
    }
}

/// An absolute path with a component pushed onto it is absolute.
pub proof fn lemma_pushed_absolute(x: Seq<char>, part: Seq<char>)
    requires
        is_absolute(x),
    ensures
        is_absolute(pushed(x, part)),
        pushed(x, part).len() <= x.len() + 1 + part.len(),
{
}

/// The file name of a path is no longer than the path.
pub proof fn lemma_file_name_len(p: Seq<char>)
    requires
        p.len() <= usize::MAX,
    ensures
        file_name(p) matches Some(n) ==> n.len() <= p.len(),
{
    if p.len() > 0 && p[0] == '/' {
        lemma_scan_bounds(p, 1, 1, false);
        let ps = parts(p);
        let rest = scan(p, 1, 1, false);
        if ps.len() > 1 {
            assert(ps.last() == rest[ps.len() - 2]);
        }
    } else {
        lemma_scan_bounds(p, 0, 0, true);
    }
}

/// An absolute path with its file name replaced is absolute.
pub proof fn lemma_with_file_name_absolute(p: Seq<char>, name: Seq<char>)
    requires
        is_absolute(p),
        p.len() <= usize::MAX,
    ensures
        is_absolute(with_file_name(p, name)),
        with_file_name(p, name).len() <= p.len() + 1 + name.len(),
{
    lemma_popped_absolute(p);
    if file_name(p).is_some() {
        lemma_pushed_absolute(popped(p), name);
    } else {
        lemma_pushed_absolute(p, name);
    }
}

/// The order of texts is transitive.
pub proof fn lemma_text_lt_transitive(a: Seq<char>, b: Seq<char>, c: Seq<char>, i: int)
    requires
        text_lt(a, b, i),
        text_lt(b, c, i),
    ensures
        text_lt(a, c, i),
    decreases a.len() - i,
{
    if i < a.len() && i < b.len() && i < c.len() && a[i] == b[i] && b[i] == c[i] {
        lemma_text_lt_transitive(a, b, c, i + 1);
    }
}

/// Of two texts that are the same before index `i`, one comes before the
/// other from there on, or they are the same.
pub proof fn lemma_text_lt_total(a: Seq<char>, b: Seq<char>, i: int)
    requires
        0 <= i <= a.len(),
        i <= b.len(),
        forall|k: int| 0 <= k < i ==> a[k] == b[k],
    ensures
        text_lt(a, b, i) || text_lt(b, a, i) || a == b,
    decreases a.len() - i,
{
    if i < a.len() && i < b.len() {
        if a[i] == b[i] {
            lemma_text_lt_total(a, b, i + 1);
        } else {
            vstd::utf8::char_u32_cast(a[i], a[i] as u32);
            vstd::utf8::char_u32_cast(b[i], b[i] as u32);
        }
    } else if i == a.len() && i == b.len() {
        assert(a =~= b);
    }
}

/// The order of components is transitive.
pub proof fn lemma_comp_lt_transitive(x: Comp, y: Comp, z: Comp)
    requires
        comp_lt(x, y),
        comp_lt(y, z),
    ensures
        comp_lt(x, z),
{
    if x.kind == Kind::Normal && y.kind == Kind::Normal && z.kind == Kind::Normal {
        lemma_text_lt_transitive(x.text, y.text, z.text, 0);
    }
}

/// The order of component sequences is transitive.
pub proof fn lemma_comps_lt_transitive(a: Seq<Comp>, b: Seq<Comp>, c: Seq<Comp>, i: int)
    requires
        comps_lt(a, b, i),
        comps_lt(b, c, i),
    ensures
        comps_lt(a, c, i),
    decreases a.len() - i,
{
    if i < a.len() && i < b.len() && i < c.len() {
        if a[i] == b[i] && b[i] == c[i] {
            lemma_comps_lt_transitive(a, b, c, i + 1);
        } else if a[i] != b[i] && b[i] != c[i] {
            lemma_comp_lt_transitive(a[i], b[i], c[i]);
            if a[i] == c[i] {
                if a[i].kind == Kind::Normal && b[i].kind == Kind::Normal {
                    lemma_text_lt_asymmetric(a[i].text, b[i].text, 0);
                }
            }
        }
    }
}

/// Whether a component has the text that its kind has: `/` for the root,
/// `.` and `..` for the two directories that have no name of their own.
pub open spec fn canonical(c: Comp) -> bool {
    match c.kind {
        Kind::RootDir => c.text == seq!['/'],
        Kind::CurDir => c.text == seq!['.'],
        Kind::ParentDir => c.text == seq!['.', '.'],
        Kind::Normal => true,
    }
}

/// The components that a scan finds have the texts of their kinds.
pub proof fn lemma_scan_canonical(p: Seq<char>, start: int, i: int, first: bool)
    requires
        0 <= start <= i <= p.len() <= usize::MAX,
        forall|k: int| start <= k < i ==> p[k] != '/',
    ensures
        forall|k: int|
            0 <= k < scan(p, start, i, first).len() ==> canonical(
                Comp {
                    kind: (#[trigger] scan(p, start, i, first)[k]).kind,
                    text: text_of(p, scan(p, start, i, first)[k]),
                },
            ),
    decreases p.len() - i,
{
    if i >= p.len() {
        let head = part_of(p, start, p.len() as int, first);
        if head.len() > 0 {
            assert(text_of(p, head[0]) =~= p.subrange(start, p.len() as int));
            if head[0].kind == Kind::CurDir {
                assert(text_of(p, head[0]) =~= seq!['.']);
            }
            if head[0].kind == Kind::ParentDir {
                assert(text_of(p, head[0]) =~= seq!['.', '.']);
            }
        }
    } else if p[i] == '/' {
        lemma_scan_canonical(p, i + 1, i + 1, false);
        let head = part_of(p, start, i, first);
        let rest = scan(p, i + 1, i + 1, false);
        if head.len() > 0 {
            if head[0].kind == Kind::CurDir {
                assert(text_of(p, head[0]) =~= seq!['.']);
            }
            if head[0].kind == Kind::ParentDir {
                assert(text_of(p, head[0]) =~= seq!['.', '.']);
            }
        }
        assert forall|k: int| 0 <= k < (head + rest).len() implies canonical(
            Comp { kind: (#[trigger] (head + rest)[k]).kind, text: text_of(p, (head + rest)[k]) },
        ) by {
            if k >= head.len() {
                assert((head + rest)[k] == rest[k - head.len()]);
            } else {
                assert((head + rest)[k] == head[0]);
            }
        }
    } else {
        lemma_scan_canonical(p, start, i + 1, first);
    }
}

/// The components of a path have the texts of their kinds.
pub proof fn lemma_comps_canonical(p: Seq<char>)
    requires
        p.len() <= usize::MAX,
    ensures
        forall|k: int| 0 <= k < comps(p).len() ==> canonical(#[trigger] comps(p)[k]),
{
    if p.len() > 0 && p[0] == '/' {
        lemma_scan_canonical(p, 1, 1, false);
        let rest = scan(p, 1, 1, false);
        assert forall|k: int| 0 <= k < comps(p).len() implies canonical(#[trigger] comps(p)[k]) by {
            if k == 0 {
                assert(text_of(p, parts(p)[0]) =~= seq!['/']);
            } else {
                assert(parts(p)[k] == rest[k - 1]);
            }
        }
    } else {
        lemma_scan_canonical(p, 0, 0, true);
    }
}

/// Of two components that have the texts of their kinds, one comes before
/// the other, or they are the same.
pub proof fn lemma_comp_lt_total(x: Comp, y: Comp)
    requires
        canonical(x),
        canonical(y),
    ensures
        comp_lt(x, y) || comp_lt(y, x) || x == y,
{
    if x.kind == Kind::Normal && y.kind == Kind::Normal {
        lemma_text_lt_total(x.text, y.text, 0);
    }
}

/// Of two component sequences that are the same before index `i`, one
/// comes before the other from there on, or they are the same.
pub proof fn lemma_comps_lt_total(a: Seq<Comp>, b: Seq<Comp>, i: int)
    requires
        0 <= i <= a.len(),
        i <= b.len(),
        forall|k: int| 0 <= k < i ==> a[k] == b[k],
        forall|k: int| 0 <= k < a.len() ==> canonical(#[trigger] a[k]),
        forall|k: int| 0 <= k < b.len() ==> canonical(#[trigger] b[k]),
    ensures
        comps_lt(a, b, i) || comps_lt(b, a, i) || a == b,
    decreases a.len() - i,
{
    if i < a.len() && i < b.len() {
        if a[i] == b[i] {
            lemma_comps_lt_total(a, b, i + 1);
        } else {
            lemma_comp_lt_total(a[i], b[i]);
        }
    } else if i == a.len() && i == b.len() {
        assert(a =~= b);
    }
}

/// The order of paths is transitive.
pub proof fn lemma_before_transitive(a: Seq<char>, b: Seq<char>, c: Seq<char>)
    requires
        before(a, b),
        before(b, c),
    ensures
        before(a, c),
{
    lemma_comps_lt_transitive(comps(a), comps(b), comps(c), 0);
}

/// The order of paths is total: of two paths one comes before the other,
/// or they have the same components.
pub proof fn lemma_before_total(a: Seq<char>, b: Seq<char>)
    requires
        a.len() <= usize::MAX,
        b.len() <= usize::MAX,
    ensures
        before(a, b) || before(b, a) || same_path(a, b),
{
    lemma_comps_canonical(a);
    lemma_comps_canonical(b);
    lemma_comps_lt_total(comps(a), comps(b), 0);
}

/// Where neither `b` comes before `a` nor `c` before `b`, `c` does not
/// come before `a`.
pub proof fn lemma_not_before_transitive(a: Seq<char>, b: Seq<char>, c: Seq<char>)
    requires
        a.len() <= usize::MAX,
        b.len() <= usize::MAX,
        !before(b, a),
        !before(c, b),
    ensures
        !before(c, a),
{
    if before(c, a) {
        lemma_before_total(a, b);
        if before(a, b) {
            lemma_before_transitive(c, a, b);
        }
    }
}

/// The components of a path lie in the path, and none is empty.
pub proof fn lemma_parts_bounds(p: Seq<char>)
    requires
        p.len() <= usize::MAX,
    ensures
        forall|k: int|
            0 <= k < parts(p).len() ==> 0 <= (#[trigger] parts(p)[k]).start < parts(p)[k].end
                <= p.len(),
{
    if p.len() > 0 && p[0] == '/' {
        lemma_scan_bounds(p, 1, 1, false);
        let rest = scan(p, 1, 1, false);
        assert forall|k: int| 0 <= k < parts(p).len() implies 0 <= (#[trigger] parts(p)[k]).start
            < parts(p)[k].end <= p.len() by {
            if k > 0 {
                assert(parts(p)[k] == rest[k - 1]);
            }
        }
    } else {
        lemma_scan_bounds(p, 0, 0, true);
    }
}

/// An absolute path stays absolute while components are applied to it, and
/// grows by no more than a separator and the length of `more` with each.
pub proof fn lemma_resolve_upto_absolute(x: Seq<char>, more: Seq<char>, k: nat)
    requires
        is_absolute(x),
        k <= parts(more).len(),
        more.len() <= usize::MAX,
        x.len() + k * (more.len() + 1) <= usize::MAX,
    ensures
        is_absolute(resolve_upto(x, more, k)),
        resolve_upto(x, more, k).len() <= x.len() + k * (more.len() + 1),
    decreases k,
{
    if k > 0 {
        let m = more.len() + 1;
        assert(k * m == (k - 1) * m + m) by (nonlinear_arith);
        assert((k - 1) * m >= 0) by (nonlinear_arith)
            requires
                k >= 1,
                m >= 0,
        ;
        lemma_resolve_upto_absolute(x, more, (k - 1) as nat);
        lemma_parts_bounds(more);
        let prev = resolve_upto(x, more, (k - 1) as nat);
        let part = parts(more)[k - 1];
        match part.kind {
            Kind::RootDir => {},
            Kind::CurDir => {},
            Kind::ParentDir => {
                lemma_popped_absolute(prev);
            },
            Kind::Normal => {
                lemma_pushed_absolute(prev, text_of(more, part));
            },
        }
    }
}

/// An absolute path with another appended to it is absolute.
pub proof fn lemma_appended_absolute(x: Seq<char>, more: Seq<char>)
    requires
        is_absolute(x),
        more.len() <= usize::MAX,
        x.len() + parts(more).len() * (more.len() + 1) <= usize::MAX,
    ensures
        is_absolute(appended(x, more)),
        appended(x, more).len() <= x.len() + parts(more).len() * (more.len() + 1),
{
    lemma_resolve_upto_absolute(x, more, parts(more).len());
}

} // verus!
