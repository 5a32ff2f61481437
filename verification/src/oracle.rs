//! Which tests to run after an edit: a small suite for the files that changed, not
//! because somebody said "fix". Prose never triggers it, and a whole workspace is
//! never tested by default.

use vstd::prelude::*;
use crate::json::JsonV;
use crate::outside::{parse_toml, parsed_toml};
use crate::paths::{
    code_path, is_code_path, is_test_path, last_index, normalize_path, normalized, rfind_char,
    test_path,
};
use crate::text::{
    chars_of, ends_with, has_prefix, has_suffix, join, joined, list_has, replace_char, same, split,
    split_at_char, starts_with, string_of, text2, text3, texts, trim, trimmed, with_char,
};

verus! {

// ---------------------------------------------------------------------------
// Paths
// ---------------------------------------------------------------------------

/// The path `b` seen from `a`.
pub open spec fn under(a: Seq<char>, b: Seq<char>) -> Seq<char> {
    if b.len() > 0 && b[0] == '/' {
        b
    } else if a.len() == 0 {
        b
    } else if a.last() == '/' {
        a + b
    } else {
        a.push('/') + b
    }
}

/// A path without what says nothing at its end: slashes, and dots for the same
/// directory.
pub open spec fn settle(p: Seq<char>) -> Seq<char>
    decreases p.len(),
{
    if p.len() <= 1 {
        p
    } else if p.last() == '/' {
        settle(p.drop_last())
    } else if p.last() == '.' && p[p.len() - 2] == '/' {
        settle(p.drop_last())
    } else {
        p
    }
}

/// The directory that a path stands in.
pub open spec fn parent_of(p: Seq<char>) -> Option<Seq<char>> {
    let t = settle(p);
    let i = last_index(t, '/');
    if t.len() == 0 || t == seq!['/'] {
        None
    } else if i < 0 {
        Some(Seq::empty())
    } else if i == 0 {
        Some(seq!['/'])
    } else {
        Some(settle(t.take(i)))
    }
}

/// The parts of a path that say something.
pub open spec fn named_parts(ps: Seq<Seq<char>>) -> Seq<Seq<char>>
    decreases ps.len(),
{
    if ps.len() == 0 {
        Seq::empty()
    } else {
        let before = named_parts(ps.drop_last());
        if ps.last().len() == 0 || ps.last() == seq!['.'] {
            before
        } else {
            before.push(ps.last())
        }
    }
}

/// The place that a path names: from the top or not, and by which parts.
pub open spec fn place(p: Seq<char>) -> (bool, Seq<Seq<char>>) {
    (p.len() > 0 && p[0] == '/', named_parts(split_at_char(p, '/')))
}

/// Some path of the list names the place that `p` names.
pub open spec fn among(list: Seq<Seq<char>>, p: Seq<char>) -> bool {
    exists|i: int| 0 <= i < list.len() && place(#[trigger] list[i]) == place(p)
}

/// The last part of a path.
pub open spec fn file_name(p: Seq<char>) -> Seq<char> {
    p.skip(last_index(p, '/') + 1)
}

/// A file name without its ending.
pub open spec fn stem_of(name: Seq<char>) -> Seq<char> {
    let dot = last_index(name, '.');
    if dot <= 0 {
        name
    } else {
        name.take(dot)
    }
}

pub fn path_under(a: &str, b: &str) -> (r: String)
    ensures
        r@ == under(a@, b@),
{
    let cb = chars_of(b);
    if cb.len() > 0 && cb[0] == '/' {
        return b.to_owned();
    }
    let ca = chars_of(a);
    if ca.len() == 0 {
        return b.to_owned();
    }
    let mut out: String = a.to_owned();
    if ca[ca.len() - 1] != '/' {
        out.push('/');
    }
    out.append(b);
    out
}

/// How much of the first `n` characters of a path is left by `settle`.
fn settled_len(cs: &Vec<char>, n: usize) -> (r: usize)
    requires
        n <= cs@.len(),
    ensures
        r <= n,
        settle(cs@.take(n as int)) == cs@.take(r as int),
        n > 0 ==> r > 0,
{
    let mut k: usize = n;
    while k > 1 && (cs[k - 1] == '/' || (cs[k - 1] == '.' && cs[k - 2] == '/'))
        invariant
            k <= n <= cs@.len(),
            n > 0 ==> k > 0,
            settle(cs@.take(n as int)) == settle(cs@.take(k as int)),
        decreases k,
    {
        assert(cs@.take(k as int).drop_last() =~= cs@.take(k - 1));
        k = k - 1;
    }
    k
}

pub fn path_parent(p: &str) -> (r: Option<String>)
    ensures
        r is Some <==> parent_of(p@) is Some,
        r matches Some(s) ==> parent_of(p@) == Some(s@),
        r matches Some(s) ==> s@.len() < p@.len(),
{
    let cs = chars_of(p);
    assert(cs@.take(cs@.len() as int) =~= p@);
    let n: usize = settled_len(&cs, cs.len());
    let t = string_of(&cs, 0, n);
    assert(t@ =~= settle(p@));
    let ts = chars_of(t.as_str());
    if ts.len() == 0 {
        return None;
    }
    if ts.len() == 1 && ts[0] == '/' {
        assert(t@ =~= seq!['/']);
        return None;
    }
    assert(t@ != seq!['/']) by {
        if t@ == seq!['/'] {
            assert(t@.len() == 1 && t@[0] == '/');
        }
    }
    match rfind_char(&ts, '/') {
        None => Some(String::new()),
        Some(i) => {
            if i == 0 {
                let s = string_of(&ts, 0, 1);
                assert(s@ =~= seq!['/']);
                Some(s)
            } else {
                let m: usize = settled_len(&ts, i);
                let s = string_of(&ts, 0, m);
                assert(s@ =~= t@.take(m as int));
                Some(s)
            }
        },
    }
}

fn parts_of(p: &str) -> (r: Vec<String>)
    ensures
        texts(r@) == named_parts(split_at_char(p@, '/')),
{
    let all = split(p, '/');
    let ghost ps = split_at_char(p@, '/');
    let mut out: Vec<String> = Vec::new();
    let mut i: usize = 0;
    assert(texts(out@) =~= named_parts(ps.take(0)));
    while i < all.len()
        invariant
            i <= all@.len(),
            texts(all@) == ps,
            texts(out@) == named_parts(ps.take(i as int)),
        decreases all.len() - i,
    {
        assert(ps.take(i + 1).drop_last() =~= ps.take(i as int));
        assert(ps.take(i + 1).last() == all@[i as int]@);
        let part = all[i].as_str();
        let n: usize = part.unicode_len();
        if !(n == 0 || (n == 1 && part.get_char(0) == '.')) {
            let ghost before = out@;
            out.push(all[i].clone());
            assert(texts(out@) =~= texts(before).push(all@[i as int]@));
            assert(all@[i as int]@ != seq!['.']) by {
                if all@[i as int]@ == seq!['.'] {
                    assert(part@.len() == 1 && part@[0] == '.');
                }
            }
        } else if n == 1 {
            assert(all@[i as int]@ =~= seq!['.']);
        }
        i = i + 1;
    }
    assert(ps.take(ps.len() as int) =~= ps);
    out
}

fn same_parts(a: &Vec<String>, b: &Vec<String>) -> (r: bool)
    ensures
        r == (texts(a@) == texts(b@)),
{
    if a.len() != b.len() {
        assert(texts(a@).len() != texts(b@).len());
        return false;
    }
    let mut i: usize = 0;
    while i < a.len()
        invariant
            i <= a@.len() == b@.len(),
            forall|j: int| 0 <= j < i ==> texts(a@)[j] == #[trigger] texts(b@)[j],
        decreases a.len() - i,
    {
        if !same(a[i].as_str(), b[i].as_str()) {
            assert(texts(a@)[i as int] != texts(b@)[i as int]);
            return false;
        }
        i = i + 1;
    }
    assert(texts(a@) =~= texts(b@));
    true
}

fn from_top(p: &str) -> (r: bool)
    ensures
        r == place(p@).0,
{
    p.unicode_len() > 0 && p.get_char(0) == '/'
}

/// Whether two paths name the same place.
pub fn same_place(a: &str, b: &str) -> (r: bool)
    ensures
        r == (place(a@) == place(b@)),
{
    from_top(a) == from_top(b) && same_parts(&parts_of(a), &parts_of(b))
}

fn is_among(list: &Vec<String>, p: &str) -> (r: bool)
    ensures
        r == among(texts(list@), p@),
{
    let mut i: usize = 0;
    while i < list.len()
        invariant
            i <= list@.len(),
            forall|j: int| 0 <= j < i ==> place(#[trigger] texts(list@)[j]) != place(p@),
        decreases list.len() - i,
    {
        assert(texts(list@)[i as int] == list@[i as int]@);
        if same_place(list[i].as_str(), p) {
            return true;
        }
        i = i + 1;
    }
    false
}

fn path_stem(p: &str) -> (r: String)
    ensures
        r@ == stem_of(file_name(p@)),
{
    let cs = chars_of(p);
    let from: usize = match rfind_char(&cs, '/') {
        Some(i) => i + 1,
        None => 0,
    };
    proof {
        lemma_last_index(p@, '/');
    }
    let name = string_of(&cs, from, cs.len());
    assert(name@ =~= file_name(p@));
    let ns = chars_of(name.as_str());
    match rfind_char(&ns, '.') {
        Some(dot) => {
            if dot == 0 {
                name
            } else {
                let s = string_of(&ns, 0, dot);
                assert(s@ =~= name@.take(dot as int));
                s
            }
        },
        None => name,
    }
}

proof fn lemma_settle(p: Seq<char>)
    ensures
        settle(p).len() <= p.len(),
    decreases p.len(),
{
    if p.len() > 1 {
        lemma_settle(p.drop_last());
    }
}

pub proof fn lemma_parent_is_shorter(p: Seq<char>)
    ensures
        parent_of(p) matches Some(up) ==> up.len() < p.len(),
{
    let t = settle(p);
    lemma_settle(p);
    lemma_last_index(t, '/');
    if t.len() == 1 && last_index(t, '/') == 0 {
        assert(t.last() == '/') by {
            if t.last() != '/' {
                lemma_last_index(t.drop_last(), '/');
            }
        }
        assert(t =~= seq!['/']);
    }
    if last_index(t, '/') > 0 {
        lemma_settle(t.take(last_index(t, '/')));
    }
}

proof fn lemma_last_index(s: Seq<char>, c: char)
    ensures
        -1 <= last_index(s, c) < s.len(),
    decreases s.len(),
{
    if s.len() > 0 && s.last() != c {
        lemma_last_index(s.drop_last(), c);
    }
}

// ---------------------------------------------------------------------------
// A workspace
// ---------------------------------------------------------------------------

/// What is known of a workspace: which paths are files and which directories, what
/// its Cargo manifests hold, and the names in its root.
#[derive(Debug, PartialEq, Eq)]
pub struct Tree {
    pub root: String,
    pub files: Vec<String>,
    pub dirs: Vec<String>,
    pub manifests: Vec<(String, String)>,
    pub root_names: Vec<String>,
}

pub ghost struct TreeV {
    pub root: Seq<char>,
    pub files: Seq<Seq<char>>,
    pub dirs: Seq<Seq<char>>,
    pub manifests: Seq<(Seq<char>, Seq<char>)>,
    pub root_names: Seq<Seq<char>>,
}

impl View for Tree {
    type V = TreeV;

    open spec fn view(&self) -> TreeV {
        TreeV {
            root: self.root@,
            files: texts(self.files@),
            dirs: texts(self.dirs@),
            manifests: self.manifests@.map_values(|m: (String, String)| (m.0@, m.1@)),
            root_names: texts(self.root_names@),
        }
    }
}

impl TreeV {
    pub open spec fn is_file(self, p: Seq<char>) -> bool {
        among(self.files, under(self.root, p))
    }

    pub open spec fn is_dir(self, p: Seq<char>) -> bool {
        among(self.dirs, under(self.root, p))
    }

    /// What the manifest at `path` holds, by the first entry for it from `i` on.
    pub open spec fn manifest(self, path: Seq<char>, i: int) -> Option<Seq<char>>
        decreases self.manifests.len() - i,
    {
        if i < 0 || i >= self.manifests.len() {
            None
        } else if place(self.manifests[i].0) == place(path) {
            Some(self.manifests[i].1)
        } else {
            self.manifest(path, i + 1)
        }
    }

    /// The root holds a file `test_*.py`.
    pub open spec fn python_tests_at_root(self) -> bool {
        exists|i: int|
            0 <= i < self.root_names.len() && has_prefix(#[trigger] self.root_names[i], "test_"@)
                && has_suffix(self.root_names[i], ".py"@)
    }

    /// There is some way to run tests.
    pub open spec fn has_tests(self) -> bool {
        self.is_file("Cargo.toml"@) || self.is_file("pyproject.toml"@) || self.is_file(
            "pytest.ini"@,
        ) || self.is_dir("tests"@) || self.python_tests_at_root()
    }

    /// The name of the package whose manifest stands at `path`.
    pub open spec fn package(self, path: Seq<char>) -> Option<Seq<char>> {
        match self.manifest(path, 0) {
            Some(raw) => match parsed_toml(raw) {
                Some(v) => package_of(v),
                None => None,
            },
            None => None,
        }
    }

    /// The package that `dir` belongs to: its own, else that of the nearest
    /// directory above it, up to the root.
    pub open spec fn nearest_package(self, dir: Seq<char>) -> Option<(Seq<char>, Seq<char>)>
        decreases dir.len(),
    {
        let manifest = under(dir, "Cargo.toml"@);
        let own = if among(self.files, manifest) {
            self.package(manifest)
        } else {
            None
        };
        match own {
            Some(name) => Some((dir, name)),
            None => match parent_of(dir) {
                Some(up) => if place(dir) == place(self.root) {
                    None
                } else {
                    proof {
                        lemma_parent_is_shorter(dir);
                    }
                    self.nearest_package(up)
                },
                None => None,
            },
        }
    }
}

/// The package name that a manifest gives.
pub open spec fn package_of(v: JsonV) -> Option<Seq<char>> {
    match v.field2("package"@, "name"@) {
        Some(JsonV::Str(s)) => if trimmed(s).len() > 0 {
            Some(trimmed(s))
        } else {
            None
        },
        _ => None,
    }
}

/// The package name that a manifest gives.
pub fn package_name_of(v: &crate::json::Json) -> (r: Option<String>)
    ensures
        r is Some <==> package_of(v@) is Some,
        r matches Some(s) ==> package_of(v@) == Some(s@),
{
    match v.get2("package", "name") {
        Some(n) => match n.as_str() {
            Some(s) => {
                let t = trim(s);
                if t.as_str().is_empty() {
                    None
                } else {
                    Some(t)
                }
            },
            None => None,
        },
        None => None,
    }
}

impl Tree {
    fn is_file(&self, p: &str) -> (r: bool)
        ensures
            r == self@.is_file(p@),
    {
        is_among(&self.files, path_under(self.root.as_str(), p).as_str())
    }

    fn is_dir(&self, p: &str) -> (r: bool)
        ensures
            r == self@.is_dir(p@),
    {
        is_among(&self.dirs, path_under(self.root.as_str(), p).as_str())
    }

    fn package_name(&self, path: &str) -> (r: Option<String>)
        ensures
            r is Some <==> self@.package(path@) is Some,
            r matches Some(s) ==> self@.package(path@) == Some(s@),
    {
        let mut i: usize = 0;
        while i < self.manifests.len()
            invariant
                i <= self.manifests@.len(),
                self@.manifest(path@, 0) == self@.manifest(path@, i as int),
            decreases self.manifests.len() - i,
        {
            assert(self@.manifests[i as int] == (
                self.manifests@[i as int].0@,
                self.manifests@[i as int].1@,
            ));
            if same_place(self.manifests[i].0.as_str(), path) {
                return match parse_toml(self.manifests[i].1.as_str()) {
                    Some(v) => package_name_of(&v),
                    None => None,
                };
            }
            i = i + 1;
        }
        None
    }

    fn python_tests_at_root(&self) -> (r: bool)
        ensures
            r == self@.python_tests_at_root(),
    {
        let mut i: usize = 0;
        while i < self.root_names.len()
            invariant
                i <= self.root_names@.len(),
                forall|j: int|
                    0 <= j < i ==> !(has_prefix(#[trigger] self@.root_names[j], "test_"@)
                        && has_suffix(self@.root_names[j], ".py"@)),
            decreases self.root_names.len() - i,
        {
            let n = self.root_names[i].as_str();
            assert(self@.root_names[i as int] == n@);
            if starts_with(n, "test_") && ends_with(n, ".py") {
                return true;
            }
            i = i + 1;
        }
        false
    }

    fn nearest_cargo_package(&self, start: String) -> (r: Option<(String, String)>)
        ensures
            r is Some <==> self@.nearest_package(start@) is Some,
            r matches Some(x) ==> self@.nearest_package(start@) == Some((x.0@, x.1@)),
    {
        let mut dir: String = start;
        loop
            invariant
                self@.nearest_package(start@) == self@.nearest_package(dir@),
            decreases dir@.len(),
        {
            let manifest = path_under(dir.as_str(), "Cargo.toml");
            if is_among(&self.files, manifest.as_str()) {
                if let Some(name) = self.package_name(manifest.as_str()) {
                    return Some((dir, name));
                }
            }
            match path_parent(dir.as_str()) {
                Some(up) => {
                    if same_place(dir.as_str(), self.root.as_str()) {
                        return None;
                    }
                    dir = up;
                },
                None => {
                    return None;
                },
            }
        }
    }
}

/// Whether there is some way to run tests.
pub fn workspace_has_tests(tree: &Tree) -> (r: bool)
    ensures
        r == tree@.has_tests(),
{
    tree.is_file("Cargo.toml") || tree.is_file("pyproject.toml") || tree.is_file("pytest.ini")
        || tree.is_dir("tests") || tree.python_tests_at_root()
}

// ---------------------------------------------------------------------------
// Commands
// ---------------------------------------------------------------------------

/// The edited files that count: normalized, code, and no tests.
pub open spec fn edited_code(edited: Seq<Seq<char>>) -> Seq<Seq<char>>
    decreases edited.len(),
{
    if edited.len() == 0 {
        Seq::empty()
    } else {
        let before = edited_code(edited.drop_last());
        let p = normalized(edited.last());
        if code_path(p) && !test_path(p) {
            before.push(p)
        } else {
            before
        }
    }
}

/// The command for the Cargo package of the first file: its library where it has
/// one, else all of the package.
pub open spec fn cargo_cmd(t: TreeV, code: Seq<Seq<char>>) -> Option<Seq<char>> {
    if !t.is_file("Cargo.toml"@) || code.len() == 0 {
        None
    } else {
        let full = under(t.root, code[0]);
        let start = if among(t.files, full) {
            match parent_of(full) {
                Some(d) => d,
                None => full,
            }
        } else {
            full
        };
        match t.nearest_package(start) {
            Some((dir, name)) => Some(
                if among(t.files, under(dir, "src/lib.rs"@)) {
                    "cargo test -p "@ + name + " --lib"@
                } else {
                    "cargo test -p "@ + name
                },
            ),
            None => None,
        }
    }
}

/// The paths that end in `.py`.
pub open spec fn python_files(code: Seq<Seq<char>>) -> Seq<Seq<char>>
    decreases code.len(),
{
    if code.len() == 0 {
        Seq::empty()
    } else {
        let before = python_files(code.drop_last());
        if has_suffix(code.last(), ".py"@) {
            before.push(code.last())
        } else {
            before
        }
    }
}

/// The directory of a relative path, nothing where it has none.
pub open spec fn dir_or_empty(p: Seq<char>) -> Seq<char> {
    match parent_of(p) {
        Some(d) => d,
        None => Seq::empty(),
    }
}

/// The places where the tests of a Python file are looked for, in order.
pub open spec fn test_candidates(rel: Seq<char>) -> Seq<Seq<char>> {
    let stem = stem_of(file_name(rel));
    let dir = dir_or_empty(rel);
    let named = "test_"@ + stem + ".py"@;
    seq![
        under(dir, named),
        under(under(dir, "tests"@), named),
        under("tests"@, named),
        under(dir, stem + "_test.py"@),
    ]
}

/// The first of the candidates from `i` on that is a file.
pub open spec fn first_file(t: TreeV, cs: Seq<Seq<char>>, i: int) -> Option<Seq<char>>
    decreases cs.len() - i,
{
    if i < 0 || i >= cs.len() {
        None
    } else if t.is_file(cs[i]) {
        Some(with_char(cs[i], '\\', '/'))
    } else {
        first_file(t, cs, i + 1)
    }
}

/// The tests of a Python file.
pub open spec fn related_test(t: TreeV, rel: Seq<char>) -> Option<Seq<char>> {
    first_file(t, test_candidates(rel), 0)
}

/// The tests of the Python files, none twice.
pub open spec fn related_tests(t: TreeV, py: Seq<Seq<char>>) -> Seq<Seq<char>>
    decreases py.len(),
{
    if py.len() == 0 {
        Seq::empty()
    } else {
        let before = related_tests(t, py.drop_last());
        match related_test(t, py.last()) {
            Some(x) => if before.contains(x) {
                before
            } else {
                before.push(x)
            },
            None => before,
        }
    }
}

/// What pytest is pointed at: the tests of the files, else their directory.
pub open spec fn pytest_targets(t: TreeV, py: Seq<Seq<char>>) -> Seq<Seq<char>> {
    let related = related_tests(t, py);
    let dir = with_char(dir_or_empty(py[0]), '\\', '/');
    if related.len() > 0 {
        related
    } else if parent_of(py[0]) is Some && dir.len() > 0 && dir != "."@ {
        seq![dir]
    } else {
        Seq::empty()
    }
}

/// The tree looks like a pytest project.
pub open spec fn pytest_tree(t: TreeV) -> bool {
    t.is_file("pyproject.toml"@) || t.is_file("pytest.ini"@) || t.is_file("setup.cfg"@)
        || t.is_dir("tests"@)
}

/// The pytest command for the edited files.
pub open spec fn pytest_cmd(t: TreeV, python: Seq<char>, code: Seq<Seq<char>>) -> Option<
    Seq<char>,
> {
    let py = python_files(code);
    if !pytest_tree(t) {
        None
    } else if py.len() == 0 {
        if t.is_dir("tests"@) || t.is_file("pytest.ini"@) {
            Some(python + " -B -m pytest -q tests"@)
        } else {
            None
        }
    } else {
        let targets = pytest_targets(t, py);
        if targets.len() == 0 {
            Some(python + " -B -m pytest -q"@)
        } else {
            Some(python + " -B -m pytest -q "@ + joined(targets, " "@))
        }
    }
}

/// The unittest command for the whole workspace.
pub open spec fn unittest_cmd(t: TreeV, python: Seq<char>) -> Option<Seq<char>> {
    if t.is_dir("tests"@) {
        Some(python + " -B -m unittest discover -s tests -v"@)
    } else if t.python_tests_at_root() {
        Some(python + " -B -m unittest discover -s . -p \"test*.py\" -v"@)
    } else {
        None
    }
}

/// The command for the files just edited, `None` where nothing is to be run.
pub open spec fn scoped_cmd(t: TreeV, python: Seq<char>, edited: Seq<Seq<char>>) -> Option<
    Seq<char>,
> {
    let code = edited_code(edited);
    if code.len() == 0 {
        None
    } else if cargo_cmd(t, code) is Some {
        cargo_cmd(t, code)
    } else if pytest_cmd(t, python, code) is Some {
        pytest_cmd(t, python, code)
    } else {
        unittest_cmd(t, python)
    }
}

/// The command before anything was edited.
pub open spec fn default_cmd(t: TreeV, python: Seq<char>) -> Option<Seq<char>> {
    if t.is_file("Cargo.toml"@) {
        match t.package(under(t.root, "Cargo.toml"@)) {
            Some(name) => if t.is_file("src/lib.rs"@) {
                Some("cargo test -p "@ + name + " --lib"@)
            } else {
                None
            },
            None => None,
        }
    } else if pytest_cmd(t, python, Seq::empty()) is Some {
        pytest_cmd(t, python, Seq::empty())
    } else {
        unittest_cmd(t, python)
    }
}

fn cargo_scoped(tree: &Tree, code: &Vec<String>) -> (r: Option<String>)
    ensures
        r is Some <==> cargo_cmd(tree@, texts(code@)) is Some,
        r matches Some(s) ==> cargo_cmd(tree@, texts(code@)) == Some(s@),
{
    if !tree.is_file("Cargo.toml") || code.len() == 0 {
        return None;
    }
    assert(texts(code@)[0] == code@[0]@);
    let full = path_under(tree.root.as_str(), code[0].as_str());
    let start: String = if is_among(&tree.files, full.as_str()) {
        match path_parent(full.as_str()) {
            Some(d) => d,
            None => full,
        }
    } else {
        full
    };
    match tree.nearest_cargo_package(start) {
        Some((dir, name)) => {
            if is_among(&tree.files, path_under(dir.as_str(), "src/lib.rs").as_str()) {
                Some(text3("cargo test -p ", name.as_str(), " --lib"))
            } else {
                Some(text2("cargo test -p ", name.as_str()))
            }
        },
        None => None,
    }
}

fn related_pytest(tree: &Tree, rel: &str) -> (r: Option<String>)
    ensures
        r is Some <==> related_test(tree@, rel@) is Some,
        r matches Some(s) ==> related_test(tree@, rel@) == Some(s@),
{
    let stem = path_stem(rel);
    let dir: String = match path_parent(rel) {
        Some(d) => d,
        None => String::new(),
    };
    let named = text3("test_", stem.as_str(), ".py");
    let mut cs: Vec<String> = Vec::new();
    cs.push(path_under(dir.as_str(), named.as_str()));
    cs.push(path_under(path_under(dir.as_str(), "tests").as_str(), named.as_str()));
    cs.push(path_under("tests", named.as_str()));
    cs.push(path_under(dir.as_str(), text2(stem.as_str(), "_test.py").as_str()));
    let ghost cv = test_candidates(rel@);
    assert(dir@ =~= dir_or_empty(rel@));
    assert(texts(cs@) =~= cv);
    let mut i: usize = 0;
    while i < cs.len()
        invariant
            i <= cs@.len(),
            texts(cs@) == cv,
            cv == test_candidates(rel@),
            first_file(tree@, cv, 0) == first_file(tree@, cv, i as int),
        decreases cs.len() - i,
    {
        assert(cv[i as int] == cs@[i as int]@);
        if tree.is_file(cs[i].as_str()) {
            return Some(replace_char(cs[i].as_str(), '\\', '/'));
        }
        i = i + 1;
    }
    None
}

fn python_only(code: &Vec<String>) -> (r: Vec<String>)
    ensures
        texts(r@) == python_files(texts(code@)),
{
    let ghost all = texts(code@);
    let mut out: Vec<String> = Vec::new();
    let mut i: usize = 0;
    assert(texts(out@) =~= Seq::empty());
    while i < code.len()
        invariant
            i <= code@.len(),
            all == texts(code@),
            texts(out@) == python_files(all.take(i as int)),
        decreases code.len() - i,
    {
        assert(all.take(i + 1).drop_last() =~= all.take(i as int));
        assert(all.take(i + 1).last() == code@[i as int]@);
        if ends_with(code[i].as_str(), ".py") {
            let ghost before = out@;
            out.push(code[i].clone());
            assert(texts(out@) =~= texts(before).push(code@[i as int]@));
        }
        i = i + 1;
    }
    assert(all.take(i as int) =~= all);
    out
}

fn pytest_points(tree: &Tree, py: &Vec<String>) -> (r: Vec<String>)
    requires
        py@.len() > 0,
    ensures
        texts(r@) == pytest_targets(tree@, texts(py@)),
{
    let ghost all = texts(py@);
    let mut out: Vec<String> = Vec::new();
    let mut i: usize = 0;
    assert(texts(out@) =~= Seq::empty());
    while i < py.len()
        invariant
            i <= py@.len(),
            all == texts(py@),
            texts(out@) == related_tests(tree@, all.take(i as int)),
        decreases py.len() - i,
    {
        assert(all.take(i + 1).drop_last() =~= all.take(i as int));
        assert(all.take(i + 1).last() == py@[i as int]@);
        if let Some(t) = related_pytest(tree, py[i].as_str()) {
            if !list_has(&out, t.as_str()) {
                let ghost before = out@;
                out.push(t);
                assert(texts(out@) =~= texts(before).push(t@));
            }
        }
        i = i + 1;
    }
    assert(all.take(i as int) =~= all);
    assert(all[0] == py@[0]@);
    if out.len() == 0 {
        assert(texts(out@) =~= Seq::empty());
        if let Some(d) = path_parent(py[0].as_str()) {
            let s = replace_char(d.as_str(), '\\', '/');
            if !s.as_str().is_empty() && !same(s.as_str(), ".") {
                out.push(s);
                assert(texts(out@) =~= seq![s@]);
            }
        }
    }
    out
}

fn pytest_scoped(tree: &Tree, python: &str, code: &Vec<String>) -> (r: Option<String>)
    ensures
        r is Some <==> pytest_cmd(tree@, python@, texts(code@)) is Some,
        r matches Some(s) ==> pytest_cmd(tree@, python@, texts(code@)) == Some(s@),
{
    let pyish: bool = tree.is_file("pyproject.toml") || tree.is_file("pytest.ini") || tree.is_file(
        "setup.cfg",
    ) || tree.is_dir("tests");
    if !pyish {
        return None;
    }
    let py = python_only(code);
    assert(texts(py@).len() == py@.len());
    if py.len() == 0 {
        if tree.is_dir("tests") || tree.is_file("pytest.ini") {
            return Some(text2(python, " -B -m pytest -q tests"));
        }
        return None;
    }
    let targets = pytest_points(tree, &py);
    assert(texts(targets@).len() == targets@.len());
    if targets.len() == 0 {
        return Some(text2(python, " -B -m pytest -q"));
    }
    Some(text3(python, " -B -m pytest -q ", join(&targets, " ").as_str()))
}

fn python_unittest(tree: &Tree, python: &str) -> (r: Option<String>)
    ensures
        r is Some <==> unittest_cmd(tree@, python@) is Some,
        r matches Some(s) ==> unittest_cmd(tree@, python@) == Some(s@),
{
    if tree.is_dir("tests") {
        return Some(text2(python, " -B -m unittest discover -s tests -v"));
    }
    if tree.python_tests_at_root() {
        return Some(text2(python, " -B -m unittest discover -s . -p \"test*.py\" -v"));
    }
    None
}

/// The command for the files just edited, `None` where nothing is to be run.
/// `python` is how Python is started here.
pub fn scoped_test_cmd(tree: &Tree, python: &str, edited: &Vec<String>) -> (r: Option<String>)
    ensures
        r is Some <==> scoped_cmd(tree@, python@, texts(edited@)) is Some,
        r matches Some(s) ==> scoped_cmd(tree@, python@, texts(edited@)) == Some(s@),
{
    let ghost all = texts(edited@);
    let mut code: Vec<String> = Vec::new();
    let mut i: usize = 0;
    assert(texts(code@) =~= Seq::empty());
    while i < edited.len()
        invariant
            i <= edited@.len(),
            all == texts(edited@),
            texts(code@) == edited_code(all.take(i as int)),
        decreases edited.len() - i,
    {
        assert(all.take(i + 1).drop_last() =~= all.take(i as int));
        assert(all.take(i + 1).last() == edited@[i as int]@);
        let p = normalize_path(edited[i].as_str());
        if is_code_path(p.as_str()) && !is_test_path(p.as_str()) {
            let ghost before = code@;
            code.push(p);
            assert(texts(code@) =~= texts(before).push(p@));
        }
        i = i + 1;
    }
    assert(all.take(i as int) =~= all);
    assert(texts(code@).len() == code@.len());
    if code.len() == 0 {
        return None;
    }
    if let Some(cmd) = cargo_scoped(tree, &code) {
        return Some(cmd);
    }
    if let Some(cmd) = pytest_scoped(tree, python, &code) {
        return Some(cmd);
    }
    python_unittest(tree, python)
}

/// The command before anything was edited.
pub fn workspace_default_test_cmd(tree: &Tree, python: &str) -> (r: Option<String>)
    ensures
        r is Some <==> default_cmd(tree@, python@) is Some,
        r matches Some(s) ==> default_cmd(tree@, python@) == Some(s@),
{
    if tree.is_file("Cargo.toml") {
        let manifest = path_under(tree.root.as_str(), "Cargo.toml");
        return match tree.package_name(manifest.as_str()) {
            Some(name) => {
                if tree.is_file("src/lib.rs") {
                    Some(text3("cargo test -p ", name.as_str(), " --lib"))
                } else {
                    None
                }
            },
            None => None,
        };
    }
    let none: Vec<String> = Vec::new();
    assert(texts(none@) =~= Seq::empty());
    if let Some(cmd) = pytest_scoped(tree, python, &none) {
        return Some(cmd);
    }
    python_unittest(tree, python)
}

// ---------------------------------------------------------------------------
// Laws
// ---------------------------------------------------------------------------

/// Prose and tests never start a run: without an edited file of production code
/// there is no command.
pub proof fn law_only_code_is_tested(t: TreeV, python: Seq<char>, edited: Seq<Seq<char>>)
    requires
        forall|i: int|
            0 <= i < edited.len() ==> !code_path(normalized(#[trigger] edited[i])) || test_path(
                normalized(edited[i]),
            ),
    ensures
        scoped_cmd(t, python, edited) is None,
{
    lemma_no_code(edited);
}

proof fn lemma_no_code(edited: Seq<Seq<char>>)
    requires
        forall|i: int|
            0 <= i < edited.len() ==> !code_path(normalized(#[trigger] edited[i])) || test_path(
                normalized(edited[i]),
            ),
    ensures
        edited_code(edited).len() == 0,
    decreases edited.len(),
{
    if edited.len() > 0 {
        let w = edited.drop_last();
        assert forall|i: int| 0 <= i < w.len() implies !code_path(normalized(#[trigger] w[i]))
            || test_path(normalized(w[i])) by {
            assert(w[i] == edited[i]);
        }
        assert(edited[edited.len() - 1] == edited.last());
        lemma_no_code(w);
    }
}

/// A path seen from another: one slash stands between them, none is doubled, and one that
/// begins at the top stays as it is.
pub proof fn law_paths_are_joined_by_one_slash(a: Seq<char>, b: Seq<char>)
    ensures
        b.len() > 0 && b[0] == '/' ==> under(a, b) == b,
        (b.len() == 0 || b[0] != '/') && a.len() > 0 && a.last() != '/' ==> under(a, b) == a + seq![
            '/',
        ] + b,
        (b.len() == 0 || b[0] != '/') && a.len() > 0 && a.last() == '/' ==> under(a, b) == a + b,
        under(Seq::empty(), b) == b,
{
    if (b.len() == 0 || b[0] != '/') && a.len() > 0 && a.last() != '/' {
        assert(a.push('/') + b =~= a + seq!['/'] + b);
    }
}

/// The tests of a package are run before all others, those that pytest finds before those
/// of the whole workspace, and nothing is run where no code was edited.
pub proof fn law_which_tests_are_run(t: TreeV, python: Seq<char>, edited: Seq<Seq<char>>)
    ensures
        ({
            let code = edited_code(edited);
            let c = cargo_cmd(t, code);
            let p = pytest_cmd(t, python, code);
            &&& code.len() == 0 ==> scoped_cmd(t, python, edited) is None
            &&& code.len() > 0 && c is Some ==> scoped_cmd(t, python, edited) == c
            &&& code.len() > 0 && c is None && p is Some ==> scoped_cmd(t, python, edited) == p
            &&& code.len() > 0 && c is None && p is None ==> scoped_cmd(t, python, edited)
                == unittest_cmd(t, python)
        }),
{
}

/// The files that count are those of code that are no tests, in the order of the edits and
/// in one form.
pub proof fn law_which_edits_count(edited: Seq<Seq<char>>, p: Seq<char>)
    ensures
        edited_code(Seq::empty()).len() == 0,
        code_path(normalized(p)) && !test_path(normalized(p)) ==> edited_code(edited.push(p))
            == edited_code(edited).push(normalized(p)),
        !code_path(normalized(p)) || test_path(normalized(p)) ==> edited_code(edited.push(p))
            == edited_code(edited),
{
    assert(edited.push(p).drop_last() =~= edited);
}

/// The package of a directory is its own where its manifest names one, else that of the
/// directory above, and none above the root.
pub proof fn law_the_nearest_package_counts(t: TreeV, dir: Seq<char>, name: Seq<char>)
    ensures
        ({
            let m = under(dir, "Cargo.toml"@);
            let own = among(t.files, m) && t.package(m) is Some;
            &&& own && t.package(m) == Some(name) ==> t.nearest_package(dir) == Some((dir, name))
            &&& !own && place(dir) == place(t.root) ==> t.nearest_package(dir) is None
            &&& !own && parent_of(dir) is None ==> t.nearest_package(dir) is None
            &&& !own && place(dir) != place(t.root) && parent_of(dir) is Some
                ==> t.nearest_package(dir) == t.nearest_package(parent_of(dir)->0)
        }),
{
    lemma_parent_is_shorter(dir);
}

/// A package is tested by its name, and only by its library where it has one. Without a
/// manifest at the root no package is tested.
pub proof fn law_a_package_is_tested_by_its_name(
    t: TreeV,
    code: Seq<Seq<char>>,
    dir: Seq<char>,
    name: Seq<char>,
)
    requires
        code.len() > 0,
        ({
            let full = under(t.root, code[0]);
            t.nearest_package(
                if among(t.files, full) && parent_of(full) is Some {
                    parent_of(full)->0
                } else {
                    full
                },
            ) == Some((dir, name))
        }),
    ensures
        !among(t.files, under(t.root, "Cargo.toml"@)) ==> cargo_cmd(t, code) is None,
        among(t.files, under(t.root, "Cargo.toml"@)) && among(t.files, under(dir, "src/lib.rs"@))
            ==> cargo_cmd(t, code) == Some("cargo test -p "@ + name + " --lib"@),
        among(t.files, under(t.root, "Cargo.toml"@)) && !among(t.files, under(dir, "src/lib.rs"@))
            ==> cargo_cmd(t, code) == Some("cargo test -p "@ + name),
{
}

/// The name of a package is what its manifest says, without the space around it.
pub proof fn law_a_manifest_names_its_package(v: JsonV, s: Seq<char>)
    ensures
        v.at("package"@).field("name"@) == Some(JsonV::Str(s)) && trimmed(s).len() > 0
            ==> package_of(v) == Some(trimmed(s)),
        v.at("package"@).field("name"@) == Some(JsonV::Str(s)) && trimmed(s).len() == 0
            ==> package_of(v) is None,
        v.at("package"@).field("name"@) is None ==> package_of(v) is None,
{
}

/// The tests of a Python file are looked for beside it, in the directory of tests beside it,
/// in that of the workspace, and beside it under the other name; the first that is there
/// counts.
pub proof fn law_where_python_tests_are_looked_for(t: TreeV, rel: Seq<char>)
    ensures
        ({
            let stem = stem_of(file_name(rel));
            let dir = match parent_of(rel) {
                Some(d) => d,
                None => Seq::empty(),
            };
            let named = "test_"@ + stem + ".py"@;
            let a = under(dir, named);
            let b = under(under(dir, "tests"@), named);
            let c = under("tests"@, named);
            let d = under(dir, stem + "_test.py"@);
            &&& t.is_file(a) ==> related_test(t, rel) == Some(with_char(a, '\\', '/'))
            &&& !t.is_file(a) && t.is_file(b) ==> related_test(t, rel) == Some(
                with_char(b, '\\', '/'),
            )
            &&& !t.is_file(a) && !t.is_file(b) && t.is_file(c) ==> related_test(t, rel) == Some(
                with_char(c, '\\', '/'),
            )
            &&& !t.is_file(a) && !t.is_file(b) && !t.is_file(c) && t.is_file(d) ==> related_test(
                t,
                rel,
            ) == Some(with_char(d, '\\', '/'))
            &&& !t.is_file(a) && !t.is_file(b) && !t.is_file(c) && !t.is_file(d) ==> related_test(
                t,
                rel,
            ) is None
        }),
{
    reveal_with_fuel(first_file, 5);
    let cs = test_candidates(rel);
    assert(cs.len() == 4);
}

/// The tests that pytest is pointed at: each once, in the order of the files.
pub proof fn law_each_test_is_run_once(t: TreeV, py: Seq<Seq<char>>, p: Seq<char>)
    ensures
        related_tests(t, Seq::empty()).len() == 0,
        related_test(t, p) is None ==> related_tests(t, py.push(p)) == related_tests(t, py),
        related_test(t, p) matches Some(x) ==> related_tests(t, py.push(p)).contains(x),
        related_test(t, p) is Some && related_tests(t, py).contains(related_test(t, p)->0)
            ==> related_tests(t, py.push(p)) == related_tests(t, py),
        related_tests(t, py).is_prefix_of(related_tests(t, py.push(p))),
{
    assert(py.push(p).drop_last() =~= py);
    let a = related_tests(t, py);
    let b = related_tests(t, py.push(p));
    assert(a =~= b.take(a.len() as int));
    if let Some(x) = related_test(t, p) {
        if !a.contains(x) {
            assert(b[b.len() - 1] == x);
        }
    }
}

/// When pytest is used and on what: only in a tree that is made for it; on the tests of the
/// files where there are any, else on their directory, else on all.
pub proof fn law_when_pytest_is_used(t: TreeV, python: Seq<char>, code: Seq<Seq<char>>)
    ensures
        ({
            let py = python_files(code);
            let made = t.is_file("pyproject.toml"@) || t.is_file("pytest.ini"@) || t.is_file(
                "setup.cfg"@,
            ) || t.is_dir("tests"@);
            let r = pytest_cmd(t, python, code);
            &&& !made ==> r is None
            &&& made && py.len() == 0 && (t.is_dir("tests"@) || t.is_file("pytest.ini"@)) ==> r
                == Some(python + " -B -m pytest -q tests"@)
            &&& py.len() == 0 && !t.is_dir("tests"@) && !t.is_file("pytest.ini"@) ==> r is None
            &&& made && py.len() > 0 && related_tests(t, py).len() > 0 ==> r == Some(
                python + " -B -m pytest -q "@ + joined(related_tests(t, py), " "@),
            )
            &&& made && py.len() > 0 ==> r is Some
        }),
{
}

/// The tests of the whole workspace are found in their directory, else at the root.
pub proof fn law_when_unittest_is_used(t: TreeV, python: Seq<char>)
    ensures
        t.is_dir("tests"@) ==> unittest_cmd(t, python) == Some(
            python + " -B -m unittest discover -s tests -v"@,
        ),
        !t.is_dir("tests"@) && t.python_tests_at_root() ==> unittest_cmd(t, python) == Some(
            python + " -B -m unittest discover -s . -p \"test*.py\" -v"@,
        ),
        !t.is_dir("tests"@) && !t.python_tests_at_root() ==> unittest_cmd(t, python) is None,
{
}

/// Before anything is edited, the library of the root package is tested where there is a
/// manifest, and else what Python has.
pub proof fn law_what_is_tested_before_an_edit(t: TreeV, python: Seq<char>, name: Seq<char>)
    ensures
        ({
            let cargo = t.is_file("Cargo.toml"@);
            let own = t.package(under(t.root, "Cargo.toml"@));
            let p = pytest_cmd(t, python, Seq::empty());
            &&& cargo && own == Some(name) && t.is_file("src/lib.rs"@) ==> default_cmd(t, python)
                == Some("cargo test -p "@ + name + " --lib"@)
            &&& cargo && (own is None || !t.is_file("src/lib.rs"@)) ==> default_cmd(
                t,
                python,
            ) is None
            &&& !cargo && p is Some ==> default_cmd(t, python) == p
            &&& !cargo && p is None ==> default_cmd(t, python) == unittest_cmd(t, python)
        }),
{
}

/// Doubled slashes and dots for the same directory do not change the place that a path
/// names; one more part does.
pub proof fn law_one_place_has_many_names(p: Seq<char>, part: Seq<char>)
    requires
        p.len() > 0,
        part.len() > 0,
        part != seq!['.'],
        !part.contains('/'),
    ensures
        place(p.push('/')) == place(p),
        place(p + seq!['/', '.']) == place(p),
        place(p.push('/') + part) == (place(p).0, place(p).1.push(part)),
{
    lemma_place_part(p, Seq::empty());
    assert(p.push('/') + Seq::<char>::empty() =~= p.push('/'));
    assert(!Seq::<char>::empty().contains('/'));
    lemma_place_part(p, seq!['.']);
    assert(p.push('/') + seq!['.'] =~= p + seq!['/', '.']);
    lemma_place_part(p, part);
}

proof fn lemma_place_part(p: Seq<char>, part: Seq<char>)
    requires
        p.len() > 0,
        !part.contains('/'),
    ensures
        place(p.push('/') + part) == (
            place(p).0,
            if part.len() == 0 || part == seq!['.'] {
                place(p).1
            } else {
                place(p).1.push(part)
            },
        ),
{
    let s = p.push('/') + part;
    lemma_split_last(p, part);
    let a = split_at_char(p, '/');
    assert(a.push(part).drop_last() =~= a);
    assert(s[0] == p[0]);
}

proof fn lemma_split_last(p: Seq<char>, part: Seq<char>)
    requires
        !part.contains('/'),
    ensures
        split_at_char(p.push('/') + part, '/') == split_at_char(p, '/').push(part),
    decreases part.len(),
{
    let s = p.push('/') + part;
    if part.len() == 0 {
        assert(s =~= p.push('/'));
        assert(s.drop_last() =~= p);
        assert(part =~= Seq::<char>::empty());
    } else {
        assert(part.contains(part.last()));
        let t = part.drop_last();
        if t.contains('/') {
            let i = choose|i: int| 0 <= i < t.len() && t[i] == '/';
            assert(part[i] == '/');
        }
        lemma_split_last(p, t);
        assert(s.drop_last() =~= p.push('/') + t);
        let b = split_at_char(p, '/').push(t);
        assert(b.drop_last() =~= split_at_char(p, '/'));
        assert(t.push(part.last()) =~= part);
    }
}

/// The directory of a file, and its name without its ending.
pub proof fn law_directory_and_stem(dir: Seq<char>, stem: Seq<char>, ext: Seq<char>)
    requires
        dir.len() > 0 && dir.last() != '/' && dir.last() != '.',
        stem.len() > 0,
        !stem.contains('/'),
        ext.len() > 0,
        !ext.contains('/') && !ext.contains('.'),
    ensures
        parent_of(dir.push('/') + (stem.push('.') + ext)) == Some(dir),
        file_name(dir.push('/') + (stem.push('.') + ext)) == stem.push('.') + ext,
        stem_of(stem.push('.') + ext) == stem,
        parent_of(stem.push('.') + ext) == Some(Seq::<char>::empty()),
{
    let name = stem.push('.') + ext;
    let p = dir.push('/') + name;
    assert(ext.contains(ext.last()));
    assert(p.last() == ext.last() && name.last() == ext.last());
    assert(settle(p) == p);
    assert(settle(name) == name);
    assert(!name.contains('/')) by {
        assert forall|i: int| 0 <= i < name.len() implies name[i] != '/' by {
            if i < stem.len() {
                assert(stem.contains(stem[i]));
            } else if i > stem.len() {
                assert(ext.contains(ext[i - stem.len() - 1]));
            }
        }
    }
    crate::paths::lemma_last_index_at(dir, '/', name);
    crate::paths::lemma_last_index_at(stem, '.', ext);
    crate::paths::lemma_last_index_none(name, '/');
    assert(p.take(dir.len() as int) =~= dir);
    assert(settle(dir) == dir);
    assert(p.skip((dir.len() + 1) as int) =~= name);
    assert(name.take(stem.len() as int) =~= stem);
}

/// There is some way to run tests where there is a manifest, a project of Python, a directory
/// of tests or a test at the root.
pub proof fn law_when_there_are_tests(t: TreeV, i: int)
    ensures
        t.is_file("Cargo.toml"@) || t.is_file("pyproject.toml"@) || t.is_file("pytest.ini"@)
            || t.is_dir("tests"@) ==> t.has_tests(),
        0 <= i < t.root_names.len() && has_prefix(t.root_names[i], "test_"@) && has_suffix(
            t.root_names[i],
            ".py"@,
        ) ==> t.has_tests(),
        !t.is_file("Cargo.toml"@) && !t.is_file("pyproject.toml"@) && !t.is_file("pytest.ini"@)
            && !t.is_dir("tests"@) && t.root_names.len() == 0 ==> !t.has_tests(),
        t.is_file("Cargo.toml"@) <==> among(t.files, under(t.root, "Cargo.toml"@)),
        t.is_dir("tests"@) <==> among(t.dirs, under(t.root, "tests"@)),
{
}

/// What a manifest holds is what the first entry of its place says, however that place is
/// written; without such an entry nothing is known of it.
pub proof fn law_a_manifest_is_found_by_its_place(t: TreeV, path: Seq<char>, i: int)
    ensures
        0 <= i < t.manifests.len() && place(t.manifests[i].0) == place(path) && (forall|j: int|
            0 <= j < i ==> place((#[trigger] t.manifests[j]).0) != place(path)) ==> t.manifest(path, 0)
            == Some(t.manifests[i].1),
        (forall|j: int|
            0 <= j < t.manifests.len() ==> place((#[trigger] t.manifests[j]).0) != place(path))
            ==> t.manifest(path, 0) is None,
{
    if 0 <= i < t.manifests.len() && (forall|j: int|
        0 <= j < i ==> place((#[trigger] t.manifests[j]).0) != place(path)) {
        lemma_manifest_past(t, path, 0, i);
    }
    if forall|j: int|
        0 <= j < t.manifests.len() ==> place((#[trigger] t.manifests[j]).0) != place(path) {
        lemma_manifest_past(t, path, 0, t.manifests.len() as int);
    }
}

proof fn lemma_manifest_past(t: TreeV, path: Seq<char>, k: int, i: int)
    requires
        0 <= k <= i <= t.manifests.len(),
        forall|j: int| k <= j < i ==> place((#[trigger] t.manifests[j]).0) != place(path),
    ensures
        t.manifest(path, k) == t.manifest(path, i),
    decreases i - k,
{
    if k < i {
        assert(place(t.manifests[k].0) != place(path));
        lemma_manifest_past(t, path, k + 1, i);
    }
}

} // verus!
