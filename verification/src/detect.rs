//! Detection of the toolchains a project uses, derived from the files it contains.
//!
//! I/O-free: callers pass in the paths they found, so every rule holds of any
//! listing, whatever produced it.

use vstd::prelude::*;

use crate::text::{
    chars_of, ends_with, find_char, first_index, less, str_ends_with, str_eq,
    str_less, spaces, trim, trim_bounds, trim_end, trim_start, first_at,
};
use crate::text::{lemma_first_index, lemma_less_irreflexive, lemma_less_total, lemma_less_transitive};

verus! {

/// Node package manager, chosen by which lockfile the project commits.
#[derive(Debug, Clone, Copy, PartialEq, Eq, Structural)]
pub enum PackageManager {
    Bun,
    Pnpm,
    Yarn,
    Npm,
}

#[derive(Debug, Clone, Copy, PartialEq, Eq, Structural)]
pub enum PythonMode {
    Project,
    Requirements,
}

#[derive(Debug, Clone, Copy, PartialEq, Eq, Structural)]
pub enum Toolchain {
    Mise,
    Rust,
    Go,
    Node(PackageManager),
    Deno,
    Clojure,
    Babashka,
    Maven { wrapper: bool },
    Gradle { wrapper: bool },
    Python(PythonMode),
    Terraform,
}

/// What detection reads: the files in the project root, plus the contents of the
/// manifests whose presence alone does not settle whether a toolchain applies.
///
/// `paths` is read as a set: neither the order of its entries nor repeated
/// entries change what is detected.
#[derive(Debug, Default, Clone, PartialEq, Eq)]
pub struct Scan {
    pub paths: Vec<String>,
    pub pyproject: Option<String>,
}

/// A toolchain that applies to a project, with the files that gave it away.
#[derive(Debug, Clone, PartialEq, Eq)]
pub struct Detection {
    pub toolchain: Toolchain,
    pub evidence: String,
}

impl View for Detection {
    type V = (Toolchain, Seq<char>);

    open spec fn view(&self) -> (Toolchain, Seq<char>) {
        (self.toolchain, self.evidence@)
    }
}

/// The set of file names held in `paths`.
pub open spec fn path_set(paths: Seq<String>) -> Set<Seq<char>> {
    Set::new(|p: Seq<char>| exists|i: int| 0 <= i < paths.len() && #[trigger] paths[i]@ == p)
}

impl Scan {
    /// The files the scan found.
    pub open spec fn files(&self) -> Set<Seq<char>> {
        path_set(self.paths@)
    }

    /// The text of `pyproject.toml`, when it was read.
    pub open spec fn manifest(&self) -> Option<Seq<char>> {
        match self.pyproject {
            Some(text) => Some(text@),
            None => None,
        }
    }

    /// An empty scan.
    pub fn new() -> (r: Scan)
        ensures
            r.files() == Set::<Seq<char>>::empty(),
            r.manifest() is None,
    {
        let r = Scan { paths: Vec::new(), pyproject: None };
        assert(r.files() =~= Set::<Seq<char>>::empty());
        r
    }

    /// Records that the project root holds `path`; a path already recorded is
    /// not recorded twice.
    pub fn insert(&mut self, path: String)
        ensures
            final(self).files() == old(self).files().insert(path@),
            final(self).manifest() == old(self).manifest(),
            final(self).paths@.len() <= old(self).paths@.len() + 1,
    {
        if !present(&self.paths, path.as_str()) {
            self.paths.push(path);
            proof {
                let ghost old_paths = old(self).paths@;
                assert(self.files() =~= old(self).files().insert(path@)) by {
                    assert forall|p: Seq<char>| self.files().contains(p) implies old(
                        self,
                    ).files().insert(path@).contains(p) by {
                        let i = choose|i: int| 0 <= i < self.paths@.len() && self.paths@[i]@ == p;
                        if i < old_paths.len() {
                            assert(old_paths[i]@ == p);
                        }
                    }
                    assert forall|p: Seq<char>| old(self).files().insert(path@).contains(
                        p,
                    ) implies self.files().contains(p) by {
                        if p == path@ {
                            assert(self.paths@[self.paths@.len() - 1]@ == p);
                        } else {
                            let i = choose|i: int| 0 <= i < old_paths.len() && old_paths[i]@ == p;
                            assert(self.paths@[i]@ == p);
                        }
                    }
                }
            }
        }
    }
}

/// The views of a sequence of names.
pub open spec fn views(names: Seq<&str>) -> Seq<Seq<char>> {
    names.map_values(|n: &str| n@)
}

/// The views of a sequence of detections.
pub open spec fn detections_view(found: Seq<Detection>) -> Seq<(Toolchain, Seq<char>)> {
    found.map_values(|d: Detection| d@)
}

/// Files that make a directory a mise project, including the asdf-style
/// `.tool-versions` that mise also reads, in the order they are preferred.
pub open spec fn mise_config_names() -> Seq<Seq<char>> {
    seq![
        "mise.toml"@,
        ".mise.toml"@,
        "mise.local.toml"@,
        ".mise.local.toml"@,
        ".tool-versions"@,
        ".mise/config.toml"@,
        "mise/config.toml"@,
        ".config/mise.toml"@,
        ".config/mise/config.toml"@,
    ]
}

pub open spec fn deno_config_names() -> Seq<Seq<char>> {
    seq!["deno.json"@, "deno.jsonc"@, "deno.lock"@]
}

pub open spec fn gradle_build_names() -> Seq<Seq<char>> {
    seq!["build.gradle"@, "build.gradle.kts"@, "settings.gradle"@, "settings.gradle.kts"@]
}

/// The first of `names` that `files` holds.
pub open spec fn first_present(files: Set<Seq<char>>, names: Seq<Seq<char>>) -> Option<
    Seq<char>,
>
    decreases names.len(),
{
    if names.len() == 0 {
        None
    } else if files.contains(names[0]) {
        Some(names[0])
    } else {
        first_present(files, names.drop_first())
    }
}

/// The package manager a Node project uses, and the lockfile that chose it; npm
/// without a lockfile when none is committed.
pub open spec fn node_choice(files: Set<Seq<char>>) -> (PackageManager, Option<Seq<char>>) {
    if files.contains("bun.lock"@) {
        (PackageManager::Bun, Some("bun.lock"@))
    } else if files.contains("bun.lockb"@) {
        (PackageManager::Bun, Some("bun.lockb"@))
    } else if files.contains("pnpm-lock.yaml"@) {
        (PackageManager::Pnpm, Some("pnpm-lock.yaml"@))
    } else if files.contains("yarn.lock"@) {
        (PackageManager::Yarn, Some("yarn.lock"@))
    } else if files.contains("package-lock.json"@) {
        (PackageManager::Npm, Some("package-lock.json"@))
    } else {
        (PackageManager::Npm, None)
    }
}

/// `first`, followed by ` + second` when there is a second file.
pub open spec fn joined_text(first: Seq<char>, second: Option<Seq<char>>) -> Seq<char> {
    match second {
        Some(s) => first + " + "@ + s,
        None => first,
    }
}

/// The header of a TOML table line: the text between `[` and the first `]`
/// after it, trimmed, once the line itself is trimmed.
pub open spec fn header_of(line: Seq<char>) -> Option<Seq<char>> {
    let t = trim(line);
    if t.len() > 0 && t[0] == '[' && t.drop_first().contains(']') {
        Some(trim(t.drop_first().take(first_index(t.drop_first(), ']'))))
    } else {
        None
    }
}

/// Whether `a..b` is one line of `text`: it starts at the beginning or after a
/// line feed, and runs up to the next line feed or the end.
pub open spec fn is_line(text: Seq<char>, a: int, b: int) -> bool {
    &&& 0 <= a <= b <= text.len()
    &&& (a == 0 || text[a - 1] == '\n')
    &&& (b == text.len() || text[b] == '\n')
    &&& forall|k: int| a <= k < b ==> text[k] != '\n'
}

/// Whether a `pyproject.toml` declares a Python package rather than only
/// configuring tools such as ruff: some line of it is the `[project]` table
/// header.
pub open spec fn declares_project_text(text: Seq<char>) -> bool {
    exists|a: int, b: int|
        is_line(text, a, b) && #[trigger] header_of(text.subrange(a, b)) == Some("project"@)
}

/// The Python installer mode a project calls for, and the file that shows it.
pub open spec fn python_choice(files: Set<Seq<char>>, manifest: Option<Seq<char>>) -> Option<
    (PythonMode, Seq<char>),
> {
    if files.contains("uv.lock"@) {
        Some((PythonMode::Project, "uv.lock"@))
    } else if files.contains("pyproject.toml"@) && (match manifest {
        Some(text) => declares_project_text(text),
        None => false,
    }) {
        Some((PythonMode::Project, "pyproject.toml"@))
    } else if files.contains("requirements.txt"@) {
        Some((PythonMode::Requirements, "requirements.txt"@))
    } else {
        None
    }
}

pub open spec fn is_terraform_file(p: Seq<char>) -> bool {
    ends_with(p, ".tf"@)
}

/// `m` is the first Terraform file of `files` in the order a `BTreeSet` of
/// `String`s is walked.
pub open spec fn first_terraform(files: Set<Seq<char>>, m: Seq<char>) -> bool {
    &&& files.contains(m)
    &&& is_terraform_file(m)
    &&& forall|p: Seq<char>| files.contains(p) && is_terraform_file(p) ==> !less(p, m)
}

pub open spec fn terraform_choice(files: Set<Seq<char>>) -> Option<Seq<char>> {
    if exists|m: Seq<char>| first_terraform(files, m) {
        Some(choose|m: Seq<char>| first_terraform(files, m))
    } else {
        None
    }
}

pub open spec fn one(present: bool, d: (Toolchain, Seq<char>)) -> Seq<(Toolchain, Seq<char>)> {
    if present {
        seq![d]
    } else {
        seq![]
    }
}

pub open spec fn mise_part(files: Set<Seq<char>>) -> Seq<(Toolchain, Seq<char>)> {
    match first_present(files, mise_config_names()) {
        Some(c) => seq![(Toolchain::Mise, c)],
        None => seq![],
    }
}

pub open spec fn node_part(files: Set<Seq<char>>) -> Seq<(Toolchain, Seq<char>)> {
    one(
        files.contains("package.json"@),
        (Toolchain::Node(node_choice(files).0), joined_text("package.json"@, node_choice(files).1)),
    )
}

pub open spec fn deno_part(files: Set<Seq<char>>) -> Seq<(Toolchain, Seq<char>)> {
    match first_present(files, deno_config_names()) {
        Some(c) => seq![(Toolchain::Deno, c)],
        None => seq![],
    }
}

pub open spec fn maven_part(files: Set<Seq<char>>) -> Seq<(Toolchain, Seq<char>)> {
    let wrapper = files.contains("mvnw"@);
    one(
        files.contains("pom.xml"@),
        (
            Toolchain::Maven { wrapper },
            joined_text("pom.xml"@, if wrapper { Some("mvnw"@) } else { None }),
        ),
    )
}

pub open spec fn gradle_part(files: Set<Seq<char>>) -> Seq<(Toolchain, Seq<char>)> {
    let wrapper = files.contains("gradlew"@);
    match first_present(files, gradle_build_names()) {
        Some(b) => seq![
            (
                Toolchain::Gradle { wrapper },
                joined_text(b, if wrapper { Some("gradlew"@) } else { None }),
            ),
        ],
        None => seq![],
    }
}

pub open spec fn python_part(files: Set<Seq<char>>, manifest: Option<Seq<char>>) -> Seq<
    (Toolchain, Seq<char>),
> {
    match python_choice(files, manifest) {
        Some((mode, file)) => seq![(Toolchain::Python(mode), file)],
        None => seq![],
    }
}

pub open spec fn terraform_part(files: Set<Seq<char>>) -> Seq<(Toolchain, Seq<char>)> {
    match terraform_choice(files) {
        Some(m) => seq![(Toolchain::Terraform, m)],
        None => seq![],
    }
}

/// Every toolchain the files call for, each with its evidence, in the fixed order
/// mise, Rust, Go, Node, Deno, Clojure, Babashka, Maven, Gradle, Python,
/// Terraform.
pub open spec fn detected(files: Set<Seq<char>>, manifest: Option<Seq<char>>) -> Seq<
    (Toolchain, Seq<char>),
> {
    mise_part(files) + one(files.contains("Cargo.toml"@), (Toolchain::Rust, "Cargo.toml"@)) + one(
        files.contains("go.mod"@),
        (Toolchain::Go, "go.mod"@),
    ) + node_part(files) + deno_part(files) + one(
        files.contains("deps.edn"@),
        (Toolchain::Clojure, "deps.edn"@),
    ) + one(files.contains("bb.edn"@), (Toolchain::Babashka, "bb.edn"@)) + maven_part(files)
        + gradle_part(files) + python_part(files, manifest) + terraform_part(files)
}

/// The files that make a directory a mise project, in the order they are
/// preferred.
pub fn mise_configs() -> (r: Vec<&'static str>)
    ensures
        views(r@) == mise_config_names(),
{
    let r = vec![
        "mise.toml",
        ".mise.toml",
        "mise.local.toml",
        ".mise.local.toml",
        ".tool-versions",
        ".mise/config.toml",
        "mise/config.toml",
        ".config/mise.toml",
        ".config/mise/config.toml",
    ];
    assert(views(r@) =~= mise_config_names());
    r
}

/// Whether `paths` holds `name`.
fn present(paths: &Vec<String>, name: &str) -> (r: bool)
    ensures
        r == path_set(paths@).contains(name@),
{
    let mut i: usize = 0;
    while i < paths.len()
        invariant
            0 <= i <= paths.len(),
            forall|j: int| 0 <= j < i ==> paths@[j]@ != name@,
        decreases paths.len() - i,
    {
        if str_eq(paths[i].as_str(), name) {
            assert(paths@[i as int]@ == name@);
            return true;
        }
        i = i + 1;
    }
    false
}

/// The first of `names` present, so evidence names the file a user can look at.
fn first_match(paths: &Vec<String>, names: &[&'static str]) -> (r: Option<&'static str>)
    ensures
        match r {
            Some(n) => first_present(path_set(paths@), views(names@)) == Some(n@),
            None => first_present(path_set(paths@), views(names@)) is None,
        },
{
    let ghost files = path_set(paths@);
    let mut i: usize = 0;
    assert(views(names@).skip(0) =~= views(names@));
    while i < names.len()
        invariant
            0 <= i <= names@.len(),
            files == path_set(paths@),
            first_present(files, views(names@)) == first_present(files, views(names@).skip(i as int)),
        decreases names@.len() - i,
    {
        let name = names[i];
        if present(paths, name) {
            return Some(name);
        }
        assert(views(names@).skip(i as int).drop_first() =~= views(names@).skip(i + 1));
        i = i + 1;
    }
    None
}

fn joined(first: &str, second: Option<&str>) -> (r: String)
    ensures
        r@ == joined_text(
            first@,
            match second {
                Some(s) => Some(s@),
                None => None,
            },
        ),
{
    match second {
        Some(second) => {
            let mut r = String::from_str(first);
            r.append(" + ");
            r.append(second);
            r
        },
        None => String::from_str(first),
    }
}

/// Picks the package manager from the committed lockfile, falling back to npm
/// when a project has a `package.json` but no lockfile.
fn package_manager(paths: &Vec<String>) -> (r: (PackageManager, Option<&'static str>))
    ensures
        r.0 == node_choice(path_set(paths@)).0,
        node_choice(path_set(paths@)).1 == match r.1 {
            Some(l) => Some(l@),
            None => None,
        },
{
    if present(paths, "bun.lock") {
        (PackageManager::Bun, Some("bun.lock"))
    } else if present(paths, "bun.lockb") {
        (PackageManager::Bun, Some("bun.lockb"))
    } else if present(paths, "pnpm-lock.yaml") {
        (PackageManager::Pnpm, Some("pnpm-lock.yaml"))
    } else if present(paths, "yarn.lock") {
        (PackageManager::Yarn, Some("yarn.lock"))
    } else if present(paths, "package-lock.json") {
        (PackageManager::Npm, Some("package-lock.json"))
    } else {
        (PackageManager::Npm, None)
    }
}

/// The header of a TOML table line, such as `project` for `[project]`.
fn table_header(line: &str) -> (r: Option<&str>)
    ensures
        match r {
            Some(h) => header_of(line@) == Some(h@),
            None => header_of(line@) is None,
        },
{
    let v = chars_of(line);
    let (a, b) = trim_bounds(&v, 0, v.len());
    assert(v@.subrange(0, v@.len() as int) =~= v@);
    let ghost t = trim(line@);
    assert(t == v@.subrange(a as int, b as int));
    if a < b && v[a] == '[' {
        assert(t.drop_first() =~= v@.subrange(a + 1, b as int));
        match find_char(&v, ']', a + 1, b) {
            Some(k) => {
                proof {
                    lemma_first_index(t.drop_first(), ']', k - (a + 1));
                    assert(t.drop_first().take(k - (a + 1)) =~= v@.subrange(a + 1, k as int));
                }
                let (c, d) = trim_bounds(&v, a + 1, k);
                Some(line.substring_char(c, d))
            },
            None => None,
        }
    } else {
        None
    }
}

/// Lines are determined by where they start.
proof fn lemma_line_end_unique(text: Seq<char>, a: int, b1: int, b2: int)
    requires
        is_line(text, a, b1),
        is_line(text, a, b2),
    ensures
        b1 == b2,
{
    if b1 < b2 {
        assert(text[b1] == '\n');
    } else if b2 < b1 {
        assert(text[b2] == '\n');
    }
}

/// Whether a `pyproject.toml` declares a Python package rather than only
/// configuring tools such as ruff. Without the `[project]` table there is nothing
/// for an installer to install.
pub fn declares_project(pyproject: &str) -> (r: bool)
    ensures
        r == declares_project_text(pyproject@),
{
    let v = chars_of(pyproject);
    let n = v.len();
    let ghost text = pyproject@;
    let mut a: usize = 0;
    loop
        invariant
            v@ == text,
            text == pyproject@,
            n == v.len(),
            a <= n,
            a == 0 || v@[a - 1] == '\n',
            forall|la: int, lb: int|
                is_line(text, la, lb) && la < a ==> #[trigger] header_of(text.subrange(la, lb))
                    != Some("project"@),
        decreases n - a,
    {
        let b = match find_char(&v, '\n', a, n) {
            Some(k) => k,
            None => n,
        };
        proof {
            assert forall|k: int| a <= k < b implies text[k] != '\n' by {
                if b < n {
                    assert(v@.subrange(a as int, n as int)[k - a] != '\n');
                } else {
                    assert(v@.subrange(a as int, n as int)[k - a] == text[k]);
                }
            }
            assert(is_line(text, a as int, b as int));
        }
        let line = pyproject.substring_char(a, b);
        match table_header(line) {
            Some(h) => {
                if str_eq(h, "project") {
                    return true;
                }
            },
            None => {},
        }
        if b == n {
            assert forall|la: int, lb: int| is_line(text, la, lb) implies #[trigger] header_of(
                text.subrange(la, lb),
            ) != Some("project"@) by {
                if la == a {
                    lemma_line_end_unique(text, la, lb, b as int);
                } else if la > a {
                    assert(text[la - 1] == '\n');
                }
            }
            return false;
        }
        proof {
            assert forall|la: int, lb: int|
                is_line(text, la, lb) && la < b + 1 implies #[trigger] header_of(
                text.subrange(la, lb),
            ) != Some("project"@) by {
                if la == a {
                    lemma_line_end_unique(text, la, lb, b as int);
                } else if la > a {
                    assert(text[la - 1] == '\n');
                }
            }
        }
        a = b + 1;
    }
}

proof fn lemma_trim_start_skips_spaces(n: nat, x: Seq<char>)
    requires
        x.len() > 0,
        !crate::text::is_white(x[0]),
    ensures
        trim_start(spaces(n) + x) == x,
    decreases n,
{
    if n > 0 {
        assert((spaces(n) + x)[0] == ' ');
        assert((spaces(n) + x).drop_first() =~= spaces((n - 1) as nat) + x);
        lemma_trim_start_skips_spaces((n - 1) as nat, x);
    } else {
        assert(spaces(n) + x =~= x);
    }
}

proof fn lemma_trim_end_keeps(s: Seq<char>, k: int)
    requires
        0 <= k < s.len(),
        !crate::text::is_white(s[k]),
    ensures
        k < trim_end(s).len(),
    decreases s.len(),
{
    lemma_trim_end_prefix(s);
    if s.len() > 0 && crate::text::is_white(s.last()) {
        assert(k < s.len() - 1);
        assert(s.drop_last()[k] == s[k]);
        lemma_trim_end_keeps(s.drop_last(), k);
    }
}

/// A `[project]` table header declares a project on whichever line it stands:
/// whatever lines come before it, blank lines and other tables included,
/// however far it is indented, whatever follows it on its line (a comment), and
/// whatever lines follow.
pub proof fn lemma_project_header_on_any_line(
    before: Seq<char>,
    indent: nat,
    tail: Seq<char>,
    after: Seq<char>,
)
    requires
        before.len() == 0 || before.last() == '\n',
        !tail.contains('\n'),
        after.len() == 0 || after[0] == '\n',
    ensures
        declares_project_text(before + spaces(indent) + "[project]"@ + tail + after),
{
    reveal_strlit("[project]");
    reveal_strlit("project");
    let p = "[project]"@;
    let name = "project"@;
    let line = spaces(indent) + p + tail;
    let text = before + spaces(indent) + p + tail + after;
    assert(text =~= before + line + after);
    let a = before.len() as int;
    let b = a + line.len();
    assert(text.subrange(a, b) =~= line);
    assert forall|k: int| a <= k < b implies text[k] != '\n' by {
        assert(text[k] == line[k - a]);
        if k - a >= indent + 9 {
            assert(line[k - a] == tail[k - a - indent - 9]);
        } else if k - a >= indent {
            assert(line[k - a] == p[k - a - indent]);
        } else {
            assert(line[k - a] == ' ');
        }
    }
    if a > 0 {
        assert(text[a - 1] == before.last());
    }
    if b < text.len() {
        assert(text[b] == after[0]);
    }
    assert(is_line(text, a, b));
    let rest = p + tail;
    assert(line =~= spaces(indent) + rest);
    assert(rest[0] == '[');
    lemma_trim_start_skips_spaces(indent, rest);
    assert(rest[8] == ']');
    lemma_trim_end_keeps(rest, 8);
    lemma_trim_end_prefix(rest);
    let t = trim_end(rest);
    assert(trim(line) == t);
    assert forall|j: int| 0 <= j < 9 implies t[j] == p[j] by {
        assert(t[j] == rest[j]);
    }
    let d = t.drop_first();
    assert(t[0] == '[');
    assert(d[7] == ']');
    assert(d.contains(']'));
    assert(first_at(d, ']', 7));
    let k = first_index(d, ']');
    assert(first_at(d, ']', k));
    assert(k == 7) by {
        if k > 7 {
            assert(d[7] != ']');
        }
    }
    assert(d.take(7) =~= name);
    assert(trim_start(name) == name);
    assert(trim_end(name) == name);
    assert(header_of(text.subrange(a, b)) == Some(name));
}

/// A committed `pyproject.toml` with a `[project]` table anywhere in it makes a
/// Python project, shown by that file, unless a `uv.lock` already shows it.
pub proof fn lemma_declared_pyproject_is_a_python_project(
    files: Set<Seq<char>>,
    before: Seq<char>,
    indent: nat,
    tail: Seq<char>,
    after: Seq<char>,
)
    requires
        files.contains("pyproject.toml"@),
        !files.contains("uv.lock"@),
        before.len() == 0 || before.last() == '\n',
        !tail.contains('\n'),
        after.len() == 0 || after[0] == '\n',
    ensures
        detected(files, Some(before + spaces(indent) + "[project]"@ + tail + after)).contains(
            (Toolchain::Python(PythonMode::Project), "pyproject.toml"@),
        ),
{
    let text = before + spaces(indent) + "[project]"@ + tail + after;
    lemma_project_header_on_any_line(before, indent, tail, after);
    let m = Some(text);
    let e = (Toolchain::Python(PythonMode::Project), "pyproject.toml"@);
    assert(python_part(files, m) == seq![e]);
    let d = detected(files, m);
    let t = terraform_part(files);
    let q = d.len() - t.len() - 1;
    assert(d[q] == e);
}

proof fn lemma_trim_start_suffix(s: Seq<char>)
    ensures
        trim_start(s).len() <= s.len(),
        trim_start(s) == s.subrange(s.len() - trim_start(s).len(), s.len() as int),
    decreases s.len(),
{
    if s.len() > 0 && crate::text::is_white(s[0]) {
        lemma_trim_start_suffix(s.drop_first());
        assert(s.drop_first().subrange(
            s.drop_first().len() - trim_start(s).len(),
            s.drop_first().len() as int,
        ) =~= s.subrange(s.len() - trim_start(s).len(), s.len() as int));
    } else {
        assert(s.subrange(0, s.len() as int) =~= s);
    }
}

proof fn lemma_trim_end_prefix(s: Seq<char>)
    ensures
        trim_end(s).len() <= s.len(),
        trim_end(s) == s.subrange(0, trim_end(s).len() as int),
    decreases s.len(),
{
    if s.len() > 0 && crate::text::is_white(s.last()) {
        lemma_trim_end_prefix(s.drop_last());
        assert(s.drop_last().subrange(0, trim_end(s).len() as int) =~= s.subrange(
            0,
            trim_end(s).len() as int,
        ));
    } else {
        assert(s.subrange(0, s.len() as int) =~= s);
    }
}

/// A table header starts with `[`, so a text without one declares no project.
pub proof fn lemma_no_bracket_no_project(text: Seq<char>)
    requires
        !text.contains('['),
    ensures
        !declares_project_text(text),
{
    if declares_project_text(text) {
        let (a, b) = choose|a: int, b: int|
            is_line(text, a, b) && #[trigger] header_of(text.subrange(a, b)) == Some("project"@);
        let line = text.subrange(a, b);
        let ts = trim_start(line);
        lemma_trim_start_suffix(line);
        lemma_trim_end_prefix(ts);
        let t = trim(line);
        assert(t[0] == ts[0]);
        let j = line.len() - ts.len();
        assert(ts[0] == line[j]);
        assert(text[a + j] == '[');
    }
}

/// At most one file of a set is the first Terraform file.
proof fn lemma_first_terraform_unique(files: Set<Seq<char>>, m1: Seq<char>, m2: Seq<char>)
    requires
        first_terraform(files, m1),
        first_terraform(files, m2),
    ensures
        m1 == m2,
{
    lemma_less_total(m1, m2);
}

/// The index in `paths` of the first Terraform file in `String` order, if any.
fn first_terraform_path(paths: &Vec<String>) -> (r: Option<usize>)
    ensures
        match r {
            Some(i) => i < paths@.len() && first_terraform(path_set(paths@), paths@[i as int]@),
            None => forall|p: Seq<char>|
                path_set(paths@).contains(p) ==> !is_terraform_file(p),
        },
{
    let mut best: Option<usize> = None;
    let mut i: usize = 0;
    while i < paths.len()
        invariant
            0 <= i <= paths.len(),
            match best {
                Some(bi) => {
                    &&& bi < i
                    &&& is_terraform_file(paths@[bi as int]@)
                    &&& forall|j: int|
                        0 <= j < i && is_terraform_file(#[trigger] paths@[j]@) ==> !less(
                            paths@[j]@,
                            paths@[bi as int]@,
                        )
                },
                None => forall|j: int| 0 <= j < i ==> !is_terraform_file(#[trigger] paths@[j]@),
            },
        decreases paths.len() - i,
    {
        if str_ends_with(paths[i].as_str(), ".tf") {
            match best {
                None => {
                    proof {
                        lemma_less_irreflexive(paths@[i as int]@);
                    }
                    best = Some(i);
                },
                Some(bi) => {
                    if str_less(paths[i].as_str(), paths[bi].as_str()) {
                        proof {
                            lemma_less_irreflexive(paths@[i as int]@);
                            assert forall|j: int|
                                0 <= j < i + 1 && is_terraform_file(
                                    #[trigger] paths@[j]@,
                                ) implies !less(paths@[j]@, paths@[i as int]@) by {
                                if j < i && less(paths@[j]@, paths@[i as int]@) {
                                    lemma_less_transitive(
                                        paths@[j]@,
                                        paths@[i as int]@,
                                        paths@[bi as int]@,
                                    );
                                }
                            }
                        }
                        best = Some(i);
                    }
                },
            }
        }
        i = i + 1;
    }
    match best {
        Some(bi) => {
            assert forall|p: Seq<char>|
                path_set(paths@).contains(p) && is_terraform_file(p) implies !less(
                p,
                paths@[bi as int]@,
            ) by {
                let j = choose|j: int| 0 <= j < paths@.len() && paths@[j]@ == p;
                assert(is_terraform_file(paths@[j]@));
            }
            assert(path_set(paths@).contains(paths@[bi as int]@));
        },
        None => {
            assert forall|p: Seq<char>| path_set(paths@).contains(p) implies !is_terraform_file(
                p,
            ) by {
                let j = choose|j: int| 0 <= j < paths@.len() && paths@[j]@ == p;
                assert(!is_terraform_file(paths@[j]@));
            }
        },
    }
    best
}

/// The detections a part contributes, as a sequence of views.
pub open spec fn part_view(d: Option<Detection>) -> Seq<(Toolchain, Seq<char>)> {
    match d {
        Some(d) => seq![d@],
        None => seq![],
    }
}

fn push_part(found: &mut Vec<Detection>, d: Option<Detection>)
    ensures
        detections_view(final(found)@) == detections_view(old(found)@) + part_view(d),
{
    match d {
        Some(d) => found.push(d),
        None => {},
    }
    assert(detections_view(found@) =~= detections_view(old(found)@) + part_view(d));
}

fn evidence_of(name: &str) -> (r: String)
    ensures
        r@ == name@,
{
    String::from_str(name)
}

fn when_present(paths: &Vec<String>, name: &str, toolchain: Toolchain) -> (r: Option<Detection>)
    ensures
        part_view(r) == one(path_set(paths@).contains(name@), (toolchain, name@)),
{
    if present(paths, name) {
        Some(Detection { toolchain, evidence: evidence_of(name) })
    } else {
        None
    }
}

fn mise_detection(paths: &Vec<String>) -> (r: Option<Detection>)
    ensures
        part_view(r) == mise_part(path_set(paths@)),
{
    let configs = mise_configs();
    match first_match(paths, configs.as_slice()) {
        Some(config) => Some(Detection { toolchain: Toolchain::Mise, evidence: evidence_of(config) }),
        None => None,
    }
}

fn node_detection(paths: &Vec<String>) -> (r: Option<Detection>)
    ensures
        part_view(r) == node_part(path_set(paths@)),
{
    if present(paths, "package.json") {
        let (manager, lockfile) = package_manager(paths);
        Some(Detection { toolchain: Toolchain::Node(manager), evidence: joined("package.json", lockfile) })
    } else {
        None
    }
}

fn deno_detection(paths: &Vec<String>) -> (r: Option<Detection>)
    ensures
        part_view(r) == deno_part(path_set(paths@)),
{
    let deno = vec!["deno.json", "deno.jsonc", "deno.lock"];
    assert(views(deno@) =~= deno_config_names());
    match first_match(paths, deno.as_slice()) {
        Some(config) => Some(Detection { toolchain: Toolchain::Deno, evidence: evidence_of(config) }),
        None => None,
    }
}

fn maven_detection(paths: &Vec<String>) -> (r: Option<Detection>)
    ensures
        part_view(r) == maven_part(path_set(paths@)),
{
    if present(paths, "pom.xml") {
        let wrapper = present(paths, "mvnw");
        let extra = if wrapper { Some("mvnw") } else { None };
        Some(Detection { toolchain: Toolchain::Maven { wrapper }, evidence: joined("pom.xml", extra) })
    } else {
        None
    }
}

fn gradle_detection(paths: &Vec<String>) -> (r: Option<Detection>)
    ensures
        part_view(r) == gradle_part(path_set(paths@)),
{
    let gradle = vec!["build.gradle", "build.gradle.kts", "settings.gradle", "settings.gradle.kts"];
    assert(views(gradle@) =~= gradle_build_names());
    match first_match(paths, gradle.as_slice()) {
        Some(build_file) => {
            let wrapper = present(paths, "gradlew");
            let extra = if wrapper { Some("gradlew") } else { None };
            Some(Detection { toolchain: Toolchain::Gradle { wrapper }, evidence: joined(build_file, extra) })
        },
        None => None,
    }
}

fn python_detection(scan: &Scan) -> (r: Option<Detection>)
    ensures
        part_view(r) == python_part(scan.files(), scan.manifest()),
{
    let paths = &scan.paths;
    if present(paths, "uv.lock") {
        Some(Detection { toolchain: Toolchain::Python(PythonMode::Project), evidence: evidence_of("uv.lock") })
    } else if present(paths, "pyproject.toml") && match &scan.pyproject {
        Some(text) => declares_project(text.as_str()),
        None => false,
    } {
        Some(Detection { toolchain: Toolchain::Python(PythonMode::Project), evidence: evidence_of("pyproject.toml") })
    } else if present(paths, "requirements.txt") {
        Some(Detection {
            toolchain: Toolchain::Python(PythonMode::Requirements),
            evidence: evidence_of("requirements.txt"),
        })
    } else {
        None
    }
}

fn terraform_detection(paths: &Vec<String>) -> (r: Option<Detection>)
    ensures
        part_view(r) == terraform_part(path_set(paths@)),
{
    match first_terraform_path(paths) {
        Some(i) => {
            proof {
                let files = path_set(paths@);
                let m = paths@[i as int]@;
                let c = choose|m: Seq<char>| first_terraform(files, m);
                lemma_first_terraform_unique(files, m, c);
            }
            Some(Detection { toolchain: Toolchain::Terraform, evidence: paths[i].clone() })
        },
        None => {
            proof {
                let files = path_set(paths@);
                if exists|m: Seq<char>| first_terraform(files, m) {
                    let c = choose|m: Seq<char>| first_terraform(files, m);
                    assert(files.contains(c));
                }
            }
            None
        },
    }
}

/// Returns the toolchains the scanned project uses, in a fixed order so runs are
/// reproducible.
pub fn detect(scan: &Scan) -> (r: Vec<Detection>)
    ensures
        detections_view(r@) == detected(scan.files(), scan.manifest()),
{
    let paths = &scan.paths;
    let mut found: Vec<Detection> = Vec::new();
    push_part(&mut found, mise_detection(paths));
    push_part(&mut found, when_present(paths, "Cargo.toml", Toolchain::Rust));
    push_part(&mut found, when_present(paths, "go.mod", Toolchain::Go));
    push_part(&mut found, node_detection(paths));
    push_part(&mut found, deno_detection(paths));
    push_part(&mut found, when_present(paths, "deps.edn", Toolchain::Clojure));
    push_part(&mut found, when_present(paths, "bb.edn", Toolchain::Babashka));
    push_part(&mut found, maven_detection(paths));
    push_part(&mut found, gradle_detection(paths));
    push_part(&mut found, python_detection(scan));
    push_part(&mut found, terraform_detection(paths));
    assert(detections_view(found@) =~= detected(scan.files(), scan.manifest()));
    found
}

/// The names of `names` that lie below the project root, in a directory.
pub open spec fn nested(names: Seq<Seq<char>>) -> Seq<Seq<char>>
    decreases names.len(),
{
    if names.len() == 0 {
        Seq::empty()
    } else if names.last().contains('/') {
        nested(names.drop_last()).push(names.last())
    } else {
        nested(names.drop_last())
    }
}

/// The mise configuration files that live in a directory under the project
/// root, which a listing of the root alone does not show.
pub fn nested_mise_configs() -> (r: Vec<&'static str>)
    ensures
        views(r@) == nested(mise_config_names()),
{
    let all = mise_configs();
    let ghost names = views(all@);
    let mut r: Vec<&'static str> = Vec::new();
    let mut i: usize = 0;
    while i < all.len()
        invariant
            0 <= i <= all@.len(),
            names == views(all@),
            names == mise_config_names(),
            views(r@) == nested(names.take(i as int)),
        decreases all@.len() - i,
    {
        assert(names.take(i + 1).drop_last() =~= names.take(i as int));
        let v = chars_of(all[i]);
        let ghost before = views(r@);
        if find_char(&v, '/', 0, v.len()).is_some() {
            r.push(all[i]);
            assert(views(r@) =~= before.push(names[i as int]));
        } else {
            assert(v@.subrange(0, v@.len() as int) =~= v@);
        }
        i = i + 1;
    }
    assert(names.take(i as int) =~= names);
    r
}

/// Where a toolchain stands in the order detection reports them.
pub open spec fn rank(t: Toolchain) -> nat {
    match t {
        Toolchain::Mise => 0,
        Toolchain::Rust => 1,
        Toolchain::Go => 2,
        Toolchain::Node(_) => 3,
        Toolchain::Deno => 4,
        Toolchain::Clojure => 5,
        Toolchain::Babashka => 6,
        Toolchain::Maven { .. } => 7,
        Toolchain::Gradle { .. } => 8,
        Toolchain::Python(_) => 9,
        Toolchain::Terraform => 10,
    }
}

/// The toolchains of `d` come in strictly increasing rank, all below `r`.
pub open spec fn ranked_below(d: Seq<(Toolchain, Seq<char>)>, r: nat) -> bool {
    &&& forall|i: int, j: int| 0 <= i < j < d.len() ==> rank(d[i].0) < rank(d[j].0)
    &&& forall|i: int| 0 <= i < d.len() ==> rank(#[trigger] d[i].0) < r
}

proof fn lemma_ranked_extend(acc: Seq<(Toolchain, Seq<char>)>, part: Seq<(Toolchain, Seq<char>)>, r: nat)
    requires
        ranked_below(acc, r),
        part.len() <= 1,
        forall|i: int| 0 <= i < part.len() ==> rank(#[trigger] part[i].0) == r,
    ensures
        ranked_below(acc + part, r + 1),
{
    let d = acc + part;
    assert forall|i: int, j: int| 0 <= i < j < d.len() implies rank(d[i].0) < rank(d[j].0) by {
        if j >= acc.len() {
            assert(d[j] == part[j - acc.len()]);
        }
    }
    assert forall|i: int| 0 <= i < d.len() implies rank(#[trigger] d[i].0) < r + 1 by {
        if i >= acc.len() {
            assert(d[i] == part[i - acc.len()]);
        }
    }
}

/// Detection reports each kind of toolchain at most once, always in the same
/// order: mise, Rust, Go, Node, Deno, Clojure, Babashka, Maven, Gradle, Python,
/// Terraform. So runs are reproducible, and only one Python installer is ever
/// chosen.
pub proof fn lemma_detection_order(files: Set<Seq<char>>, manifest: Option<Seq<char>>)
    ensures
        forall|i: int, j: int|
            0 <= i < j < detected(files, manifest).len() ==> rank(
                #[trigger] detected(files, manifest)[i].0,
            ) < rank(#[trigger] detected(files, manifest)[j].0),
{
    let p0 = mise_part(files);
    let p1 = one(files.contains("Cargo.toml"@), (Toolchain::Rust, "Cargo.toml"@));
    let p2 = one(files.contains("go.mod"@), (Toolchain::Go, "go.mod"@));
    let p3 = node_part(files);
    let p4 = deno_part(files);
    let p5 = one(files.contains("deps.edn"@), (Toolchain::Clojure, "deps.edn"@));
    let p6 = one(files.contains("bb.edn"@), (Toolchain::Babashka, "bb.edn"@));
    let p7 = maven_part(files);
    let p8 = gradle_part(files);
    let p9 = python_part(files, manifest);
    let p10 = terraform_part(files);
    let e: Seq<(Toolchain, Seq<char>)> = Seq::empty();
    assert(ranked_below(e, 0));
    lemma_ranked_extend(e, p0, 0);
    assert(e + p0 =~= p0);
    lemma_ranked_extend(p0, p1, 1);
    lemma_ranked_extend(p0 + p1, p2, 2);
    lemma_ranked_extend(p0 + p1 + p2, p3, 3);
    lemma_ranked_extend(p0 + p1 + p2 + p3, p4, 4);
    lemma_ranked_extend(p0 + p1 + p2 + p3 + p4, p5, 5);
    lemma_ranked_extend(p0 + p1 + p2 + p3 + p4 + p5, p6, 6);
    lemma_ranked_extend(p0 + p1 + p2 + p3 + p4 + p5 + p6, p7, 7);
    lemma_ranked_extend(p0 + p1 + p2 + p3 + p4 + p5 + p6 + p7, p8, 8);
    lemma_ranked_extend(p0 + p1 + p2 + p3 + p4 + p5 + p6 + p7 + p8, p9, 9);
    lemma_ranked_extend(p0 + p1 + p2 + p3 + p4 + p5 + p6 + p7 + p8 + p9, p10, 10);
    assert(detected(files, manifest) == p0 + p1 + p2 + p3 + p4 + p5 + p6 + p7 + p8 + p9 + p10);
}

/// Evidence names files that the project holds: one file, or two joined by
/// ` + ` when a lockfile or build wrapper settled the choice.
pub open spec fn names_present_files(files: Set<Seq<char>>, evidence: Seq<char>) -> bool {
    ||| files.contains(evidence)
    ||| exists|a: Seq<char>, b: Seq<char>|
        files.contains(a) && files.contains(b) && evidence == #[trigger] joined_text(a, Some(b))
}

proof fn lemma_first_present_member(files: Set<Seq<char>>, names: Seq<Seq<char>>)
    ensures
        first_present(files, names) matches Some(n) ==> files.contains(n),
    decreases names.len(),
{
    if names.len() > 0 && !files.contains(names[0]) {
        lemma_first_present_member(files, names.drop_first());
    }
}

/// Every detection of `d` names files that `files` holds.
pub open spec fn evidence_present(files: Set<Seq<char>>, d: Seq<(Toolchain, Seq<char>)>) -> bool {
    forall|i: int| 0 <= i < d.len() ==> names_present_files(files, (#[trigger] d[i]).1)
}

proof fn lemma_evidence_extend(
    files: Set<Seq<char>>,
    acc: Seq<(Toolchain, Seq<char>)>,
    part: Seq<(Toolchain, Seq<char>)>,
)
    requires
        evidence_present(files, acc),
        evidence_present(files, part),
    ensures
        evidence_present(files, acc + part),
{
    let d = acc + part;
    assert forall|i: int| 0 <= i < d.len() implies names_present_files(files, (#[trigger] d[i]).1) by {
        if i >= acc.len() {
            assert(d[i] == part[i - acc.len()]);
        }
    }
}

proof fn lemma_single_evidence(files: Set<Seq<char>>, part: Seq<(Toolchain, Seq<char>)>)
    requires
        part.len() <= 1,
        part.len() == 1 ==> names_present_files(files, part[0].1),
    ensures
        evidence_present(files, part),
{
}

proof fn lemma_node_evidence(files: Set<Seq<char>>)
    ensures
        evidence_present(files, node_part(files)),
{
    let wn = node_choice(files);
    if files.contains("package.json"@) {
        match wn.1 {
            Some(l) => {
                assert(files.contains(l));
                assert(names_present_files(files, joined_text("package.json"@, Some(l))));
            },
            None => {},
        }
    }
    lemma_single_evidence(files, node_part(files));
}

proof fn lemma_maven_evidence(files: Set<Seq<char>>)
    ensures
        evidence_present(files, maven_part(files)),
{
    if files.contains("pom.xml"@) && files.contains("mvnw"@) {
        assert(names_present_files(files, joined_text("pom.xml"@, Some("mvnw"@))));
    }
    lemma_single_evidence(files, maven_part(files));
}

proof fn lemma_gradle_evidence(files: Set<Seq<char>>)
    ensures
        evidence_present(files, gradle_part(files)),
{
    lemma_first_present_member(files, gradle_build_names());
    match first_present(files, gradle_build_names()) {
        Some(b) => {
            if files.contains("gradlew"@) {
                assert(names_present_files(files, joined_text(b, Some("gradlew"@))));
            }
        },
        None => {},
    }
    lemma_single_evidence(files, gradle_part(files));
}

proof fn lemma_terraform_evidence(files: Set<Seq<char>>)
    ensures
        evidence_present(files, terraform_part(files)),
{
    if exists|m: Seq<char>| first_terraform(files, m) {
        let m = choose|m: Seq<char>| first_terraform(files, m);
        assert(files.contains(m));
    }
    lemma_single_evidence(files, terraform_part(files));
}

proof fn lemma_named_evidence(files: Set<Seq<char>>, manifest: Option<Seq<char>>)
    ensures
        evidence_present(files, mise_part(files)),
        evidence_present(files, deno_part(files)),
        evidence_present(files, python_part(files, manifest)),
        evidence_present(files, one(files.contains("Cargo.toml"@), (Toolchain::Rust, "Cargo.toml"@))),
        evidence_present(files, one(files.contains("go.mod"@), (Toolchain::Go, "go.mod"@))),
        evidence_present(files, one(files.contains("deps.edn"@), (Toolchain::Clojure, "deps.edn"@))),
        evidence_present(files, one(files.contains("bb.edn"@), (Toolchain::Babashka, "bb.edn"@))),
{
    lemma_first_present_member(files, mise_config_names());
    lemma_first_present_member(files, deno_config_names());
    lemma_single_evidence(files, mise_part(files));
    lemma_single_evidence(files, deno_part(files));
    lemma_single_evidence(files, python_part(files, manifest));
    lemma_single_evidence(files, one(files.contains("Cargo.toml"@), (Toolchain::Rust, "Cargo.toml"@)));
    lemma_single_evidence(files, one(files.contains("go.mod"@), (Toolchain::Go, "go.mod"@)));
    lemma_single_evidence(files, one(files.contains("deps.edn"@), (Toolchain::Clojure, "deps.edn"@)));
    lemma_single_evidence(files, one(files.contains("bb.edn"@), (Toolchain::Babashka, "bb.edn"@)));
}

/// Evidence names the files that matched: every detection's evidence is a file
/// the scan found, or two such files joined by ` + ` when a lockfile or a build
/// wrapper settled the choice.
pub proof fn lemma_evidence_names_present_files(files: Set<Seq<char>>, manifest: Option<Seq<char>>)
    ensures
        evidence_present(files, detected(files, manifest)),
{
    let p0 = mise_part(files);
    let p1 = one(files.contains("Cargo.toml"@), (Toolchain::Rust, "Cargo.toml"@));
    let p2 = one(files.contains("go.mod"@), (Toolchain::Go, "go.mod"@));
    let p3 = node_part(files);
    let p4 = deno_part(files);
    let p5 = one(files.contains("deps.edn"@), (Toolchain::Clojure, "deps.edn"@));
    let p6 = one(files.contains("bb.edn"@), (Toolchain::Babashka, "bb.edn"@));
    let p7 = maven_part(files);
    let p8 = gradle_part(files);
    let p9 = python_part(files, manifest);
    let p10 = terraform_part(files);
    lemma_named_evidence(files, manifest);
    lemma_node_evidence(files);
    lemma_maven_evidence(files);
    lemma_gradle_evidence(files);
    lemma_terraform_evidence(files);
    lemma_evidence_extend(files, p0, p1);
    lemma_evidence_extend(files, p0 + p1, p2);
    lemma_evidence_extend(files, p0 + p1 + p2, p3);
    lemma_evidence_extend(files, p0 + p1 + p2 + p3, p4);
    lemma_evidence_extend(files, p0 + p1 + p2 + p3 + p4, p5);
    lemma_evidence_extend(files, p0 + p1 + p2 + p3 + p4 + p5, p6);
    lemma_evidence_extend(files, p0 + p1 + p2 + p3 + p4 + p5 + p6, p7);
    lemma_evidence_extend(files, p0 + p1 + p2 + p3 + p4 + p5 + p6 + p7, p8);
    lemma_evidence_extend(files, p0 + p1 + p2 + p3 + p4 + p5 + p6 + p7 + p8, p9);
    lemma_evidence_extend(files, p0 + p1 + p2 + p3 + p4 + p5 + p6 + p7 + p8 + p9, p10);
    assert(detected(files, manifest) == p0 + p1 + p2 + p3 + p4 + p5 + p6 + p7 + p8 + p9 + p10);
}

/// Whether some detection of `d` is of the kind ranked `r`.
pub open spec fn has_rank(d: Seq<(Toolchain, Seq<char>)>, r: nat) -> bool {
    exists|i: int| 0 <= i < d.len() && rank(#[trigger] d[i].0) == r
}

proof fn lemma_has_rank_concat(a: Seq<(Toolchain, Seq<char>)>, b: Seq<(Toolchain, Seq<char>)>, r: nat)
    ensures
        has_rank(a + b, r) <==> (has_rank(a, r) || has_rank(b, r)),
{
    let d = a + b;
    if has_rank(d, r) {
        let i = choose|i: int| 0 <= i < d.len() && rank(#[trigger] d[i].0) == r;
        if i >= a.len() {
            assert(d[i] == b[i - a.len()]);
        } else {
            assert(d[i] == a[i]);
        }
    }
    if has_rank(a, r) {
        let i = choose|i: int| 0 <= i < a.len() && rank(#[trigger] a[i].0) == r;
        assert(d[i] == a[i]);
    }
    if has_rank(b, r) {
        let i = choose|i: int| 0 <= i < b.len() && rank(#[trigger] b[i].0) == r;
        assert(d[a.len() + i] == b[i]);
    }
}

proof fn lemma_prefix_rank(ps: Seq<Seq<(Toolchain, Seq<char>)>>, k: int, r: nat)
    requires
        0 <= k <= ps.len(),
        forall|kk: int, i: int|
            0 <= kk < ps.len() && 0 <= i < ps[kk].len() ==> rank(#[trigger] ps[kk][i].0) == kk,
    ensures
        has_rank(prefix_parts(ps, k), r) <==> (r < k && ps[r as int].len() > 0),
    decreases k,
{
    if k > 0 {
        lemma_prefix_rank(ps, k - 1, r);
        lemma_has_rank_concat(prefix_parts(ps, k - 1), ps[k - 1], r);
        if ps[k - 1].len() > 0 && k - 1 == r {
            assert(rank(ps[k - 1][0].0) == r);
        }
        if has_rank(ps[k - 1], r) {
            let i = choose|i: int| 0 <= i < ps[k - 1].len() && rank(#[trigger] ps[k - 1][i].0) == r;
            assert(rank(ps[k - 1][i].0) == k - 1);
        }
    }
}

/// The kind ranked `r` is detected exactly when the part that reports it is
/// not empty.
proof fn lemma_rank_presence(files: Set<Seq<char>>, manifest: Option<Seq<char>>, r: nat)
    requires
        r < 11,
    ensures
        has_rank(detected(files, manifest), r) <==> detection_parts(files, manifest)[r as int].len() > 0,
{
    let ps = detection_parts(files, manifest);
    assert forall|kk: int, i: int|
        0 <= kk < ps.len() && 0 <= i < ps[kk].len() implies rank(#[trigger] ps[kk][i].0) == kk by {}
    lemma_prefix_rank(ps, 11, r);
    reveal_with_fuel(prefix_parts, 12);
    assert(Seq::<(Toolchain, Seq<char>)>::empty() + ps[0] =~= ps[0]);
    assert(detected(files, manifest) =~= prefix_parts(ps, 11));
}

/// The parts of a detection, in order.
pub open spec fn detection_parts(files: Set<Seq<char>>, manifest: Option<Seq<char>>) -> Seq<
    Seq<(Toolchain, Seq<char>)>,
> {
    seq![
        mise_part(files),
        one(files.contains("Cargo.toml"@), (Toolchain::Rust, "Cargo.toml"@)),
        one(files.contains("go.mod"@), (Toolchain::Go, "go.mod"@)),
        node_part(files),
        deno_part(files),
        one(files.contains("deps.edn"@), (Toolchain::Clojure, "deps.edn"@)),
        one(files.contains("bb.edn"@), (Toolchain::Babashka, "bb.edn"@)),
        maven_part(files),
        gradle_part(files),
        python_part(files, manifest),
        terraform_part(files),
    ]
}

/// The first `k` parts, one after the other.
pub open spec fn prefix_parts(ps: Seq<Seq<(Toolchain, Seq<char>)>>, k: int) -> Seq<(Toolchain, Seq<char>)>
    decreases k,
{
    if k <= 0 {
        Seq::empty()
    } else {
        prefix_parts(ps, k - 1) + ps[k - 1]
    }
}

/// A lockfile alone is not a Node project: Node is detected exactly when the
/// project has a `package.json`.
#[verifier::spinoff_prover]
pub proof fn lemma_node_needs_package_json(files: Set<Seq<char>>, manifest: Option<Seq<char>>)
    ensures
        has_rank(detected(files, manifest), 3) <==> files.contains("package.json"@),
{
    lemma_rank_presence(files, manifest, 3);
    assert(detection_parts(files, manifest)[3] == node_part(files));
    assert(node_part(files).len() > 0 <==> files.contains("package.json"@));
}

/// The lockfiles that choose a Node project's package manager, in the order
/// they are looked for.
pub open spec fn lockfiles() -> Seq<(Seq<char>, PackageManager)> {
    seq![
        ("bun.lock"@, PackageManager::Bun),
        ("bun.lockb"@, PackageManager::Bun),
        ("pnpm-lock.yaml"@, PackageManager::Pnpm),
        ("yarn.lock"@, PackageManager::Yarn),
        ("package-lock.json"@, PackageManager::Npm),
    ]
}

/// The first lockfile in `lockfiles()` order that the project has chooses the
/// package manager, whatever other lockfiles it also has; with none, npm runs
/// without a lockfile.
pub proof fn lemma_first_lockfile_chooses(files: Set<Seq<char>>)
    ensures
        forall|i: int|
            0 <= i < lockfiles().len() && files.contains(#[trigger] lockfiles()[i].0) && (forall|
                j: int,
            | 0 <= j < i ==> !files.contains(lockfiles()[j].0)) ==> node_choice(files) == (
                lockfiles()[i].1,
                Some(lockfiles()[i].0),
            ),
        (forall|i: int| 0 <= i < lockfiles().len() ==> !files.contains(#[trigger] lockfiles()[i].0))
            ==> node_choice(files) == (PackageManager::Npm, None::<Seq<char>>),
{
    let t = lockfiles();
    assert forall|i: int|
        0 <= i < t.len() && files.contains(#[trigger] t[i].0) && (forall|j: int|
            0 <= j < i ==> !files.contains(t[j].0)) implies node_choice(files) == (
        t[i].1,
        Some(t[i].0),
    ) by {
        if i >= 1 {
            assert(!files.contains(t[0].0));
        }
        if i >= 2 {
            assert(!files.contains(t[1].0));
        }
        if i >= 3 {
            assert(!files.contains(t[2].0));
        }
        if i >= 4 {
            assert(!files.contains(t[3].0));
        }
    }
    if forall|i: int| 0 <= i < t.len() ==> !files.contains(#[trigger] t[i].0) {
        assert(!files.contains(t[0].0));
        assert(!files.contains(t[1].0));
        assert(!files.contains(t[2].0));
        assert(!files.contains(t[3].0));
        assert(!files.contains(t[4].0));
    }
}

/// A committed `uv.lock` makes a Python project without reading the manifest:
/// what `pyproject.toml` says then changes nothing.
pub proof fn lemma_uv_lock_ignores_manifest(
    files: Set<Seq<char>>,
    m1: Option<Seq<char>>,
    m2: Option<Seq<char>>,
)
    requires
        files.contains("uv.lock"@),
    ensures
        detected(files, m1) == detected(files, m2),
        has_rank(detected(files, m1), 9),
{
    assert(python_part(files, m1) == python_part(files, m2));
    lemma_rank_presence(files, m1, 9);
    assert(detection_parts(files, m1)[9] == python_part(files, m1));
    assert(python_part(files, m1).len() > 0);
}

proof fn lemma_path_set_push(paths: Seq<String>)
    requires
        paths.len() > 0,
    ensures
        path_set(paths) == path_set(paths.drop_last()).insert(paths.last()@),
{
    let front = paths.drop_last();
    assert forall|p: Seq<char>| path_set(paths).contains(p) implies path_set(front).insert(
        paths.last()@,
    ).contains(p) by {
        let i = choose|i: int| 0 <= i < paths.len() && paths[i]@ == p;
        if i < front.len() {
            assert(front[i]@ == p);
        }
    }
    assert forall|p: Seq<char>| path_set(front).insert(paths.last()@).contains(p) implies path_set(
        paths,
    ).contains(p) by {
        if p == paths.last()@ {
            assert(paths[paths.len() - 1]@ == p);
        } else {
            let i = choose|i: int| 0 <= i < front.len() && front[i]@ == p;
            assert(paths[i]@ == p);
        }
    }
    assert(path_set(paths) =~= path_set(front).insert(paths.last()@));
}

/// Among finitely many paths, if any is a Terraform file then one comes first.
proof fn lemma_first_terraform_exists(paths: Seq<String>)
    requires
        exists|p: Seq<char>| path_set(paths).contains(p) && is_terraform_file(p),
    ensures
        exists|m: Seq<char>| first_terraform(path_set(paths), m),
    decreases paths.len(),
{
    let files = path_set(paths);
    let p0 = choose|p: Seq<char>| files.contains(p) && is_terraform_file(p);
    assert(paths.len() > 0);
    let front = paths.drop_last();
    let q = paths.last()@;
    lemma_path_set_push(paths);
    if exists|p: Seq<char>| path_set(front).contains(p) && is_terraform_file(p) {
        lemma_first_terraform_exists(front);
        let m1 = choose|m: Seq<char>| first_terraform(path_set(front), m);
        if is_terraform_file(q) && less(q, m1) {
            assert forall|p: Seq<char>| files.contains(p) && is_terraform_file(p) implies !less(
                p,
                q,
            ) by {
                lemma_less_irreflexive(q);
                if p != q && less(p, q) {
                    lemma_less_transitive(p, q, m1);
                }
            }
            assert(first_terraform(files, q));
        } else {
            assert forall|p: Seq<char>| files.contains(p) && is_terraform_file(p) implies !less(
                p,
                m1,
            ) by {}
            assert(first_terraform(files, m1));
        }
    } else {
        assert(p0 == q);
        assert forall|p: Seq<char>| files.contains(p) && is_terraform_file(p) implies !less(p, q) by {
            lemma_less_irreflexive(q);
        }
        assert(first_terraform(files, q));
    }
}

/// Any Terraform file makes a Terraform project: Terraform is detected exactly
/// when some file of the scan ends in `.tf`, with that first such file as
/// evidence.
pub proof fn lemma_any_terraform_file(paths: Seq<String>, manifest: Option<Seq<char>>)
    ensures
        has_rank(detected(path_set(paths), manifest), 10) <==> exists|p: Seq<char>|
            path_set(paths).contains(p) && is_terraform_file(p),
{
    let files = path_set(paths);
    lemma_rank_presence(files, manifest, 10);
    assert(detection_parts(files, manifest)[10] == terraform_part(files));
    if exists|p: Seq<char>| files.contains(p) && is_terraform_file(p) {
        lemma_first_terraform_exists(paths);
        assert(detection_parts(files, manifest)[10].len() > 0);
    } else if exists|m: Seq<char>| first_terraform(files, m) {
        let m = choose|m: Seq<char>| first_terraform(files, m);
        assert(files.contains(m) && is_terraform_file(m));
    }
}

/// A `pyproject.toml` that only configures tools is not a Python project:
/// without `uv.lock`, without `requirements.txt` and without a `[project]`
/// table, no Python installer is chosen.
pub proof fn lemma_tool_only_pyproject_is_not_python(files: Set<Seq<char>>, manifest: Option<Seq<char>>)
    requires
        !files.contains("uv.lock"@),
        !files.contains("requirements.txt"@),
        match manifest {
            Some(text) => !declares_project_text(text),
            None => true,
        },
    ensures
        !has_rank(detected(files, manifest), 9),
{
    lemma_rank_presence(files, manifest, 9);
    assert(detection_parts(files, manifest)[9] == python_part(files, manifest));
    assert(python_choice(files, manifest) is None);
}

/// Maven and Gradle are told to use the project's wrapper script exactly when
/// one is committed.
pub proof fn lemma_wrapper_follows_the_files(files: Set<Seq<char>>, manifest: Option<Seq<char>>)
    ensures
        forall|i: int|
            0 <= i < detected(files, manifest).len() ==> match (#[trigger] detected(
                files,
                manifest,
            )[i]).0 {
                Toolchain::Maven { wrapper } => wrapper == files.contains("mvnw"@),
                Toolchain::Gradle { wrapper } => wrapper == files.contains("gradlew"@),
                _ => true,
            },
{
    let ps = detection_parts(files, manifest);
    assert forall|kk: int, i: int|
        0 <= kk < ps.len() && 0 <= i < ps[kk].len() implies match (#[trigger] ps[kk][i]).0 {
            Toolchain::Maven { wrapper } => wrapper == files.contains("mvnw"@),
            Toolchain::Gradle { wrapper } => wrapper == files.contains("gradlew"@),
            _ => true,
        } by {}
    lemma_prefix_wrappers(files, ps, 11);
    reveal_with_fuel(prefix_parts, 12);
    assert(Seq::<(Toolchain, Seq<char>)>::empty() + ps[0] =~= ps[0]);
    assert(detected(files, manifest) =~= prefix_parts(ps, 11));
}

/// Whether every Maven and Gradle detection of `d` uses its wrapper exactly when
/// the files hold it.
pub open spec fn wrappers_follow(files: Set<Seq<char>>, d: Seq<(Toolchain, Seq<char>)>) -> bool {
    forall|i: int|
        0 <= i < d.len() ==> match (#[trigger] d[i]).0 {
            Toolchain::Maven { wrapper } => wrapper == files.contains("mvnw"@),
            Toolchain::Gradle { wrapper } => wrapper == files.contains("gradlew"@),
            _ => true,
        }
}

proof fn lemma_prefix_wrappers(files: Set<Seq<char>>, ps: Seq<Seq<(Toolchain, Seq<char>)>>, k: int)
    requires
        0 <= k <= ps.len(),
        forall|kk: int, i: int|
            0 <= kk < ps.len() && 0 <= i < ps[kk].len() ==> match (#[trigger] ps[kk][i]).0 {
                Toolchain::Maven { wrapper } => wrapper == files.contains("mvnw"@),
                Toolchain::Gradle { wrapper } => wrapper == files.contains("gradlew"@),
                _ => true,
            },
    ensures
        wrappers_follow(files, prefix_parts(ps, k)),
    decreases k,
{
    if k > 0 {
        lemma_prefix_wrappers(files, ps, k - 1);
        let a = prefix_parts(ps, k - 1);
        let b = ps[k - 1];
        let d = a + b;
        assert forall|i: int| 0 <= i < d.len() implies match (#[trigger] d[i]).0 {
            Toolchain::Maven { wrapper } => wrapper == files.contains("mvnw"@),
            Toolchain::Gradle { wrapper } => wrapper == files.contains("gradlew"@),
            _ => true,
        } by {
            if i >= a.len() {
                assert(d[i] == b[i - a.len()]);
            } else {
                assert(d[i] == a[i]);
            }
        }
    }
}

} // verus!
