//! Paths: how they are displayed, expanded, excluded from traversal and collected.
use vstd::prelude::*;

use crate::branch::opt_str_view;
use crate::branch::opt_view;
use crate::config::strings_view;
use crate::error::Error;
use crate::pattern::regex_is_match;
use crate::pattern::regex_set_check;
use crate::style::OutputStyle;
use crate::pattern::regex_set_matches;
use crate::pattern::regex_set_new_error;
use crate::pattern::some_regex_matches;
use crate::text::chars_of;
use crate::text::lemma_str_lt_irreflexive;
use crate::text::lemma_str_lt_transitive;
use crate::text::join_strings;
use crate::text::lines;
use crate::text::lines_spec;
use crate::text::joined;
use crate::text::push_char;
use crate::text::push_str;
use crate::text::replace_char;
use crate::text::replaced_char;
use crate::text::str_less;
use crate::text::str_lt;
use crate::text::str_eq;
use crate::text::string_of;
use crate::text::strip_prefix;
use crate::text::strip_prefix_spec;

verus! {

/* What std's paths compute */

/// The text of each component of a path, in order, as `Path::components` yields them.
pub uninterp spec fn path_components_of(path: Seq<char>) -> Seq<Seq<char>>;

/// The final component of a path when it is a normal one, as `Path::file_name` gives it.
pub uninterp spec fn path_file_name_of(path: Seq<char>) -> Option<Seq<char>>;

/// What is left of `path` after the components of `base`, as `Path::strip_prefix` gives it;
/// none when `base` is not a prefix of `path`.
pub uninterp spec fn path_strip_prefix_of(path: Seq<char>, base: Seq<char>) -> Option<Seq<char>>;

/// `base` with `rest` pushed onto it, as `Path::join` gives it.
pub uninterp spec fn path_join_of(base: Seq<char>, rest: Seq<char>) -> Seq<char>;

/// `Path::components`, each component as the text of `Component::as_os_str`. The text of a
/// component tells its kind (`/` the root, `.` the current directory, `..` the parent, any other
/// text a normal component), so two paths are equal as `Path`s exactly when these sequences are.
#[verifier::external_body]
fn path_components(path: &str) -> (r: Vec<String>)
    ensures
        strings_view(r@) == path_components_of(path@),
{
    std::path::Path::new(path).components().map(|c| c.as_os_str().to_string_lossy().into_owned()).collect()
}

/// `Path::file_name`. The name is part of a UTF-8 path, so converting it loses nothing.
#[verifier::external_body]
fn path_file_name(path: &str) -> (r: Option<String>)
    ensures
        match r {
            Some(n) => path_file_name_of(path@) == Some(n@),
            None => path_file_name_of(path@) is None,
        },
{
    std::path::Path::new(path).file_name().map(|n| n.to_string_lossy().into_owned())
}

/// `Path::strip_prefix`; its error only says that `base` is no prefix.
#[verifier::external_body]
fn path_strip_prefix(path: &str, base: &str) -> (r: Option<String>)
    ensures
        match r {
            Some(rest) => path_strip_prefix_of(path@, base@) == Some(rest@),
            None => path_strip_prefix_of(path@, base@) is None,
        },
{
    std::path::Path::new(path).strip_prefix(base).ok().map(|rest| rest.to_string_lossy().into_owned())
}

/// `Path::join`. Both parts are UTF-8, and so is what joins them.
#[verifier::external_body]
fn path_join(base: &str, rest: &str) -> (r: String)
    ensures
        r@ == path_join_of(base@, rest@),
{
    std::path::Path::new(base).join(rest).to_string_lossy().into_owned()
}

/* Relative paths */

/// How many leading components two component sequences share.
pub open spec fn common_prefix_len(a: Seq<Seq<char>>, b: Seq<Seq<char>>) -> nat
    decreases a.len(),
{
    if a.len() == 0 || b.len() == 0 || a[0] != b[0] {
        0
    } else {
        1 + common_prefix_len(a.drop_first(), b.drop_first())
    }
}

/// The components of the path to `path_c` from `base_c`: a `..` for each component of `base_c`
/// past the ones they share, then the components of `path_c` past them.
pub open spec fn relative_parts(base_c: Seq<Seq<char>>, path_c: Seq<Seq<char>>) -> Seq<Seq<char>> {
    let n = common_prefix_len(base_c, path_c);
    Seq::new((base_c.len() - n) as nat, |i: int| ".."@) + path_c.skip(n as int)
}

/// Where following the components `parts` from the directory `dir` leads, as components: `..`
/// goes up one level (no higher than the root), any other component goes into it.
pub open spec fn resolve_parts(dir: Seq<Seq<char>>, parts: Seq<Seq<char>>) -> Seq<Seq<char>>
    decreases parts.len(),
{
    if parts.len() == 0 {
        dir
    } else {
        let next = if parts[0] == ".."@ {
            if dir.len() > 0 { dir.drop_last() } else { dir }
        } else {
            dir.push(parts[0])
        };
        resolve_parts(next, parts.drop_first())
    }
}

/// The path to `path` from `base`, given their components: `.` for the same path; `path` itself
/// when they share no component; else a `..` for each component of `base` past the shared ones,
/// then the components of `path` past them, joined by the path separator `sep` (`.` when nothing
/// is left).
pub open spec fn relative_path_spec(base_c: Seq<Seq<char>>, path_c: Seq<Seq<char>>, path: Seq<char>, sep: char) -> Seq<char> {
    let n = common_prefix_len(base_c, path_c);
    let parts = relative_parts(base_c, path_c);
    if base_c == path_c {
        "."@
    } else if n == 0 {
        path
    } else if parts.len() == 0 {
        "."@
    } else {
        joined(parts, seq![sep])
    }
}

proof fn lemma_common_prefix(a: Seq<Seq<char>>, b: Seq<Seq<char>>, k: int)
    requires
        0 <= k <= a.len(),
        k <= b.len(),
        forall|j: int| 0 <= j < k ==> a[j] == b[j],
    ensures
        common_prefix_len(a, b) == k + common_prefix_len(a.skip(k), b.skip(k)),
    decreases k,
{
    if k > 0 {
        assert(a[0] == b[0]);
        lemma_common_prefix(a.drop_first(), b.drop_first(), k - 1);
        assert(a.drop_first().skip(k - 1) =~= a.skip(k));
        assert(b.drop_first().skip(k - 1) =~= b.skip(k));
    } else {
        assert(a.skip(0) =~= a);
        assert(b.skip(0) =~= b);
    }
}

/// The components two sequences share lead both of them.
proof fn lemma_common_prefix_agrees(a: Seq<Seq<char>>, b: Seq<Seq<char>>)
    ensures
        common_prefix_len(a, b) <= a.len(),
        common_prefix_len(a, b) <= b.len(),
        forall|j: int| 0 <= j < common_prefix_len(a, b) ==> a[j] == b[j],
    decreases a.len(),
{
    if !(a.len() == 0 || b.len() == 0 || a[0] != b[0]) {
        lemma_common_prefix_agrees(a.drop_first(), b.drop_first());
        assert forall|j: int| 0 <= j < common_prefix_len(a, b) implies a[j] == b[j] by {
            if j > 0 {
                assert(a[j] == a.drop_first()[j - 1]);
                assert(b[j] == b.drop_first()[j - 1]);
            }
        }
    }
}

/// Following `a` and then `b` leads where following them joined leads.
proof fn lemma_resolve_concat(dir: Seq<Seq<char>>, a: Seq<Seq<char>>, b: Seq<Seq<char>>)
    ensures
        resolve_parts(dir, a + b) == resolve_parts(resolve_parts(dir, a), b),
    decreases a.len(),
{
    if a.len() == 0 {
        assert(a + b =~= b);
    } else {
        assert((a + b)[0] == a[0]);
        assert((a + b).drop_first() =~= a.drop_first() + b);
        let next = if a[0] == ".."@ {
            if dir.len() > 0 { dir.drop_last() } else { dir }
        } else {
            dir.push(a[0])
        };
        lemma_resolve_concat(next, a.drop_first(), b);
    }
}

/// Going up `k` levels from a directory at least `k` deep leaves its first components.
proof fn lemma_resolve_ups(dir: Seq<Seq<char>>, k: nat)
    requires
        k <= dir.len(),
    ensures
        resolve_parts(dir, Seq::new(k, |i: int| ".."@)) == dir.take(dir.len() - k),
    decreases k,
{
    let ups = Seq::new(k, |i: int| ".."@);
    if k == 0 {
        assert(dir.take(dir.len() as int) =~= dir);
    } else {
        assert(ups[0] == ".."@);
        assert(ups.drop_first() =~= Seq::new((k - 1) as nat, |i: int| ".."@));
        lemma_resolve_ups(dir.drop_last(), (k - 1) as nat);
        assert(dir.drop_last().take(dir.drop_last().len() - (k - 1)) =~= dir.take(dir.len() - k));
    }
}

/// Going into components none of which is `..` appends them.
proof fn lemma_resolve_down(dir: Seq<Seq<char>>, parts: Seq<Seq<char>>)
    requires
        forall|i: int| 0 <= i < parts.len() ==> parts[i] != ".."@,
    ensures
        resolve_parts(dir, parts) == dir + parts,
    decreases parts.len(),
{
    if parts.len() == 0 {
        assert(dir + parts =~= dir);
    } else {
        assert(parts[0] != ".."@);
        lemma_resolve_down(dir.push(parts[0]), parts.drop_first());
        assert(dir.push(parts[0]) + parts.drop_first() =~= dir + parts);
    }
}

/// Following the relative path from `base_c` leads to `path_c`, when no component of `path_c` is
/// `..`.
pub proof fn law_relative_parts_lead_back(base_c: Seq<Seq<char>>, path_c: Seq<Seq<char>>)
    requires
        forall|i: int| 0 <= i < path_c.len() ==> path_c[i] != ".."@,
    ensures
        resolve_parts(base_c, relative_parts(base_c, path_c)) == path_c,
{
    let n = common_prefix_len(base_c, path_c) as int;
    lemma_common_prefix_agrees(base_c, path_c);
    let ups = Seq::new((base_c.len() - n) as nat, |i: int| ".."@);
    let down = path_c.skip(n);
    lemma_resolve_concat(base_c, ups, down);
    lemma_resolve_ups(base_c, (base_c.len() - n) as nat);
    assert(base_c.take(n) =~= path_c.take(n));
    assert forall|i: int| 0 <= i < down.len() implies down[i] != ".."@ by {
        assert(down[i] == path_c[n + i]);
    }
    lemma_resolve_down(path_c.take(n), down);
    assert(path_c.take(n) + down =~= path_c);
}

/// Whether two component texts are equal.
fn component_eq(a: &String, b: &String) -> (r: bool)
    ensures
        r == (a@ == b@),
{
    str_eq(a.as_str(), b.as_str())
}

/// The path to `path` from `base`, given the components of both (as `path_components_of` gives
/// them) and `path` itself.
pub fn relative_path_from(base_components: &Vec<String>, path_components: &Vec<String>, path: &str, separator: char) -> (r: String)
    ensures
        r@ == relative_path_spec(strings_view(base_components@), strings_view(path_components@), path@, separator),
{
    let ghost bc = strings_view(base_components@);
    let ghost pc = strings_view(path_components@);
    let mut n: usize = 0;
    while n < base_components.len() && n < path_components.len() && component_eq(&base_components[n], &path_components[n])
        invariant
            n <= base_components@.len(),
            n <= path_components@.len(),
            bc == strings_view(base_components@),
            pc == strings_view(path_components@),
            forall|j: int| 0 <= j < n ==> bc[j] == pc[j],
        decreases base_components.len() - n,
    {
        n += 1;
    }
    proof {
        lemma_common_prefix(bc, pc, n as int);
        let bs = bc.skip(n as int);
        let ps = pc.skip(n as int);
        if bs.len() > 0 && ps.len() > 0 {
            assert(bs[0] == bc[n as int]);
            assert(ps[0] == pc[n as int]);
        }
        assert(common_prefix_len(bs, ps) == 0);
    }
    let same = n == base_components.len() && n == path_components.len();
    if same {
        assert(bc =~= pc);
        return string_of(".");
    }
    assert(bc != pc) by {
        if bc == pc {
            assert(n < bc.len());
            assert(bc[n as int] == pc[n as int]);
        }
    }
    if n == 0 {
        return string_of(path);
    }
    let mut parts: Vec<String> = Vec::new();
    let ups = base_components.len() - n;
    let mut k: usize = 0;
    while k < ups
        invariant
            k <= ups,
            strings_view(parts@) == Seq::new(k as nat, |i: int| ".."@),
        decreases ups - k,
    {
        let ghost before = strings_view(parts@);
        let dots = string_of("..");
        parts.push(dots);
        assert(strings_view(parts@) =~= before.push(dots@));
        assert(strings_view(parts@) =~= Seq::new((k + 1) as nat, |i: int| ".."@));
        k += 1;
    }
    let mut j: usize = n;
    while j < path_components.len()
        invariant
            n <= j <= path_components@.len(),
            pc == strings_view(path_components@),
            strings_view(parts@) == Seq::new(ups as nat, |i: int| ".."@) + pc.subrange(n as int, j as int),
        decreases path_components.len() - j,
    {
        let ghost before = strings_view(parts@);
        parts.push(string_of(path_components[j].as_str()));
        assert(strings_view(parts@) =~= before.push(pc[j as int]));
        assert(pc.subrange(n as int, j + 1) =~= pc.subrange(n as int, j as int).push(pc[j as int]));
        j += 1;
    }
    assert(pc.subrange(n as int, pc.len() as int) =~= pc.skip(n as int));
    if parts.len() == 0 {
        string_of(".")
    } else {
        let mut sep = String::new();
        push_char(&mut sep, separator);
        assert(sep@ =~= seq![separator]);
        join_strings(&parts, sep.as_str())
    }
}

/// The path to `path` from `base`, as the relative path of a repository is displayed.
pub fn relative_path(base: &str, path: &str, separator: char) -> (r: String)
    ensures
        r@ == relative_path_spec(path_components_of(base@), path_components_of(path@), path@, separator),
{
    let b = path_components(base);
    let p = path_components(path);
    relative_path_from(&b, &p, path, separator)
}

/// A repository as displayed: its absolute path, or its path from the working directory.
pub open spec fn display_repo_spec(absolute_paths: bool, cwd: Seq<char>, repo: Seq<char>, sep: char) -> Seq<char> {
    if absolute_paths {
        repo
    } else {
        relative_path_spec(path_components_of(cwd), path_components_of(repo), repo, sep)
    }
}

/// How repositories are displayed.
pub struct DisplayOptions {
    /// Whether repository paths are printed absolute.
    pub absolute_paths: bool,
    /// The working directory, which relative paths start from.
    pub cwd: String,
    /// The platform's path separator (`std::path::MAIN_SEPARATOR`), which joins relative paths.
    pub separator: char,
    /// How text is styled.
    pub style: OutputStyle,
}

impl DisplayOptions {
    /// A repository as displayed.
    pub fn repo(&self, repo: &str) -> (r: String)
        ensures
            r@ == display_repo_spec(self.absolute_paths, self.cwd@, repo@, self.separator),
    {
        if self.absolute_paths {
            string_of(repo)
        } else {
            relative_path(self.cwd.as_str(), repo, self.separator)
        }
    }
}

/// Displaying with absolute paths shows a repository's path as it is, and a repository at the
/// working directory is shown as `.` otherwise.
pub proof fn law_display_of_repo(cwd: Seq<char>, repo: Seq<char>, sep: char)
    ensures
        display_repo_spec(true, cwd, repo, sep) == repo,
        display_repo_spec(false, repo, repo, sep) == "."@,
{
}

/* Home directories */

/// The message when the home directory is needed and unknown.
pub open spec fn no_home_message() -> Seq<char> {
    "failed to determine home directory"@
}

/// `~` is the home directory and `~/rest` is `rest` joined onto it; other paths are kept. The home
/// directory is needed only for these two forms.
pub open spec fn expand_home_spec(path: Seq<char>, home: Option<Seq<char>>) -> Result<Seq<char>, Seq<char>> {
    if path == "~"@ {
        match home {
            Some(h) => Ok(h),
            None => Err(no_home_message()),
        }
    } else if strip_prefix_spec(path, "~/"@) is Some {
        match home {
            Some(h) => Ok(path_join_of(h, strip_prefix_spec(path, "~/"@)->0)),
            None => Err(no_home_message()),
        }
    } else {
        Ok(path)
    }
}

/// The text of a string result, with an error's text.
pub open spec fn result_text(r: Result<String, Error>) -> Result<Seq<char>, Seq<char>> {
    match r {
        Ok(s) => Ok(s@),
        Err(e) => Err(e.message()),
    }
}

/// Expands a leading `~` with the home directory (`HOME`, none when it is not set).
pub fn expand_home(path: &str, home: Option<&str>) -> (r: Result<String, Error>)
    ensures
        result_text(r) == expand_home_spec(path@, opt_str_view(home)),
{
    if str_eq(path, "~") {
        return match home {
            Some(h) => Ok(string_of(h)),
            None => Err(Error::Message(string_of("failed to determine home directory"))),
        };
    }
    match strip_prefix(path, "~/") {
        Some(rest) => match home {
            Some(h) => Ok(path_join(h, rest.as_str())),
            None => Err(Error::Message(string_of("failed to determine home directory"))),
        },
        None => Ok(string_of(path)),
    }
}

/* Removing repeated paths */

/// The paths without repeats, each where it first occurs.
pub open spec fn dedupe_spec(paths: Seq<Seq<char>>) -> Seq<Seq<char>>
    decreases paths.len(),
{
    if paths.len() == 0 {
        seq![]
    } else {
        let rest = dedupe_spec(paths.drop_last());
        if rest.contains(paths.last()) {
            rest
        } else {
            rest.push(paths.last())
        }
    }
}

/// Whether `v` holds `s`.
fn contains_string(v: &Vec<String>, s: &str) -> (r: bool)
    ensures
        r == strings_view(v@).contains(s@),
{
    let mut i: usize = 0;
    while i < v.len()
        invariant
            i <= v@.len(),
            forall|k: int| 0 <= k < i ==> v@[k]@ != s@,
        decreases v.len() - i,
    {
        if str_eq(v[i].as_str(), s) {
            assert(strings_view(v@)[i as int] == s@);
            return true;
        }
        i += 1;
    }
    assert(!strings_view(v@).contains(s@)) by {
        if strings_view(v@).contains(s@) {
            let k = choose|k: int| 0 <= k < strings_view(v@).len() && strings_view(v@)[k] == s@;
            assert(v@[k]@ == s@);
        }
    }
    false
}

/// The paths in order, without repeats: each path is kept where it first occurs.
pub fn dedupe_paths(paths: &Vec<String>) -> (r: Vec<String>)
    ensures
        strings_view(r@) == dedupe_spec(strings_view(paths@)),
{
    let ghost pv = strings_view(paths@);
    let mut out: Vec<String> = Vec::new();
    let mut i: usize = 0;
    while i < paths.len()
        invariant
            i <= paths@.len(),
            pv == strings_view(paths@),
            strings_view(out@) == dedupe_spec(pv.take(i as int)),
        decreases paths.len() - i,
    {
        assert(pv.take(i + 1).drop_last() =~= pv.take(i as int));
        assert(pv.take(i + 1).last() == paths@[i as int]@);
        if !contains_string(&out, paths[i].as_str()) {
            let ghost before = out@;
            out.push(string_of(paths[i].as_str()));
            assert(strings_view(out@) =~= strings_view(before).push(paths@[i as int]@));
        }
        i += 1;
    }
    assert(pv.take(paths.len() as int) =~= pv);
    out
}

/// Removing repeats keeps each path once, drops no path, and adds none.
pub proof fn law_dedupe_keeps_each_path_once(paths: Seq<Seq<char>>)
    ensures
        dedupe_spec(paths).no_duplicates(),
        forall|p: Seq<char>| dedupe_spec(paths).contains(p) <==> paths.contains(p),
    decreases paths.len(),
{
    if paths.len() > 0 {
        let init = paths.drop_last();
        law_dedupe_keeps_each_path_once(init);
        let rest = dedupe_spec(init);
        let last = paths.last();
        assert(paths =~= init.push(last));
        assert forall|p: Seq<char>| paths.contains(p) <==> (init.contains(p) || p == last) by {
            if paths.contains(p) && p != last {
                let k = choose|k: int| 0 <= k < paths.len() && paths[k] == p;
                assert(init[k] == p);
            }
            if init.contains(p) {
                let k = choose|k: int| 0 <= k < init.len() && init[k] == p;
                assert(paths[k] == p);
            }
            if p == last {
                assert(paths[paths.len() - 1] == p);
            }
        }
        if !rest.contains(last) {
            assert forall|p: Seq<char>| rest.push(last).contains(p) <==> (rest.contains(p) || p == last) by {
                if rest.push(last).contains(p) && p != last {
                    let k = choose|k: int| 0 <= k < rest.push(last).len() && rest.push(last)[k] == p;
                    assert(rest[k] == p);
                }
                if rest.contains(p) {
                    let k = choose|k: int| 0 <= k < rest.len() && rest[k] == p;
                    assert(rest.push(last)[k] == p);
                }
                if p == last {
                    assert(rest.push(last)[rest.len() as int] == p);
                }
            }
        }
    }
}

/// Removing repeats from paths that have none changes nothing.
pub proof fn law_dedupe_of_distinct_paths(paths: Seq<Seq<char>>)
    requires
        paths.no_duplicates(),
    ensures
        dedupe_spec(paths) == paths,
    decreases paths.len(),
{
    if paths.len() > 0 {
        let init = paths.drop_last();
        law_dedupe_of_distinct_paths(init);
        law_dedupe_keeps_each_path_once(init);
        assert(!init.contains(paths.last())) by {
            if init.contains(paths.last()) {
                let k = choose|k: int| 0 <= k < init.len() && init[k] == paths.last();
                assert(paths[k] == paths[paths.len() - 1]);
            }
        }
        assert(init.push(paths.last()) =~= paths);
    }
}

/* Directory exclusions */

/// Regexes that exclude directories from the traversal.
#[derive(Debug)]
pub struct DirectoryExclusions {
    patterns: Vec<String>,
    separator: char,
}

impl DirectoryExclusions {
    #[verifier::type_invariant]
    spec fn compiles(self) -> bool {
        regex_set_new_error(self.patterns.deep_view()) is None
    }

    /// The regexes.
    pub closed spec fn patterns(self) -> Seq<Seq<char>> {
        self.patterns.deep_view()
    }

    /// The platform's path separator, written `/` in relative paths before they are matched.
    pub closed spec fn separator(self) -> char {
        self.separator
    }

    /// The exclusions for the regexes, on a platform whose path separator is `separator`
    /// (`std::path::MAIN_SEPARATOR`); an error when they do not compile as a set.
    pub fn new(patterns: Vec<String>, separator: char) -> (r: Result<DirectoryExclusions, Error>)
        ensures
            r is Ok <==> regex_set_new_error(patterns.deep_view()) is None,
            match r {
                Ok(x) => x.patterns() == patterns.deep_view() && x.separator() == separator,
                Err(e) => e.message() == "invalid directory exclusion regex: "@
                    + regex_set_new_error(patterns.deep_view())->0,
            },
    {
        match regex_set_check(&patterns) {
            Ok(()) => Ok(DirectoryExclusions { patterns, separator }),
            Err(err) => {
                let mut m = string_of("invalid directory exclusion regex: ");
                push_str(&mut m, err.as_str());
                Err(Error::Message(m))
            },
        }
    }

    /// The number of regexes.
    pub fn len(&self) -> (r: usize)
        ensures
            r == self.patterns().len(),
    {
        self.patterns.len()
    }

    /// Whether a directory with the given name (none when it has none) and the given path from
    /// the search root is excluded: some regex matches the name or the relative path.
    pub open spec fn spec_matches_parts(self, name: Option<Seq<char>>, relative: Seq<char>) -> bool {
        (name matches Some(n) && some_regex_matches(self.patterns(), n)) || some_regex_matches(self.patterns(), relative)
    }

    /// Whether a directory with the given name and relative path is excluded.
    pub fn matches_parts(&self, name: Option<&str>, relative: &str) -> (r: bool)
        ensures
            r == self.spec_matches_parts(opt_str_view(name), relative@),
    {
        proof { use_type_invariant(self); }
        let name_matches = match name {
            Some(n) => regex_set_matches(&self.patterns, n),
            None => false,
        };
        name_matches || regex_set_matches(&self.patterns, relative)
    }

    /// Whether `directory`, found under the search root `root`, is excluded: by its name, or by
    /// its path from the root (the whole path when it is not under the root) with the platform's
    /// separators written `/`.
    pub open spec fn spec_matches(self, root: Seq<char>, directory: Seq<char>) -> bool {
        let relative = match path_strip_prefix_of(directory, root) {
            Some(rest) => rest,
            None => directory,
        };
        self.spec_matches_parts(path_file_name_of(directory), replaced_char(relative, self.separator(), '/'))
    }

    /// Whether `directory`, found under the search root `root`, is excluded.
    pub fn matches(&self, root: &str, directory: &str) -> (r: bool)
        ensures
            r == self.spec_matches(root@, directory@),
    {
        let name = path_file_name(directory);
        let rest = match path_strip_prefix(directory, root) {
            Some(rest) => rest,
            None => string_of(directory),
        };
        let relative = replace_char(rest.as_str(), self.separator, '/');
        match name {
            Some(n) => self.matches_parts(Some(n.as_str()), relative.as_str()),
            None => self.matches_parts(None, relative.as_str()),
        }
    }
}

} // verus!

verus! {

/* The order of paths */

/// The kind of a component, in the order `std::path::Component` ranks kinds: the root, the
/// current directory, the parent, then normal components.
pub open spec fn component_rank(c: Seq<char>) -> int {
    if c == "/"@ {
        0
    } else if c == "."@ {
        1
    } else if c == ".."@ {
        2
    } else {
        3
    }
}

/// The order of components: by kind, and normal components by their bytes (which for UTF-8 text
/// is the order of their chars).
pub open spec fn component_lt(a: Seq<char>, b: Seq<char>) -> bool {
    component_rank(a) < component_rank(b) || (component_rank(a) == 3 && component_rank(b) == 3 && str_lt(a, b))
}

/// The lexicographic order of component sequences.
pub open spec fn components_lt(a: Seq<Seq<char>>, b: Seq<Seq<char>>) -> bool
    decreases a.len(),
{
    if a.len() == 0 {
        b.len() > 0
    } else if b.len() == 0 {
        false
    } else if a[0] != b[0] {
        component_lt(a[0], b[0])
    } else {
        components_lt(a.drop_first(), b.drop_first())
    }
}

/// The order of paths, as `Path`'s `Ord` compares them: by their components.
pub open spec fn path_lt(a: Seq<char>, b: Seq<char>) -> bool {
    components_lt(path_components_of(a), path_components_of(b))
}

proof fn lemma_component_lt_order(a: Seq<char>, b: Seq<char>, c: Seq<char>)
    ensures
        !component_lt(a, a),
        component_lt(a, b) && component_lt(b, c) ==> component_lt(a, c),
{
    lemma_str_lt_irreflexive(a);
    if component_lt(a, b) && component_lt(b, c) && component_rank(a) == 3 && component_rank(c) == 3 {
        if str_lt(a, b) && str_lt(b, c) {
            lemma_str_lt_transitive(a, b, c);
        }
    }
}

proof fn lemma_components_lt_irreflexive(a: Seq<Seq<char>>)
    ensures
        !components_lt(a, a),
    decreases a.len(),
{
    if a.len() > 0 {
        lemma_components_lt_irreflexive(a.drop_first());
    }
}

proof fn lemma_components_lt_transitive(a: Seq<Seq<char>>, b: Seq<Seq<char>>, c: Seq<Seq<char>>)
    requires
        components_lt(a, b),
        components_lt(b, c),
    ensures
        components_lt(a, c),
    decreases a.len(),
{
    if a.len() > 0 && b.len() > 0 && c.len() > 0 {
        lemma_component_lt_order(a[0], b[0], c[0]);
        lemma_component_lt_order(a[0], a[0], a[0]);
        if a[0] == b[0] && b[0] == c[0] {
            lemma_components_lt_transitive(a.drop_first(), b.drop_first(), c.drop_first());
        }
    }
}

/// Whether the component texts come before one another.
fn component_less(a: &String, b: &String) -> (r: bool)
    ensures
        r == component_lt(a@, b@),
{
    let ra = component_rank_of(a);
    let rb = component_rank_of(b);
    if ra < rb {
        return true;
    }
    if ra == 3 && rb == 3 {
        let av = chars_of(a.as_str());
        let bv = chars_of(b.as_str());
        return str_less(&av, &bv);
    }
    false
}

/// The kind of a component.
fn component_rank_of(c: &String) -> (r: u8)
    ensures
        r as int == component_rank(c@),
{
    if str_eq(c.as_str(), "/") {
        0
    } else if str_eq(c.as_str(), ".") {
        1
    } else if str_eq(c.as_str(), "..") {
        2
    } else {
        3
    }
}

/// Whether one component sequence comes before the other.
fn components_less(a: &Vec<String>, b: &Vec<String>) -> (r: bool)
    ensures
        r == components_lt(strings_view(a@), strings_view(b@)),
{
    let ghost av = strings_view(a@);
    let ghost bv = strings_view(b@);
    let mut i: usize = 0;
    assert(av.skip(0) =~= av);
    assert(bv.skip(0) =~= bv);
    while i < a.len() && i < b.len() && component_eq(&a[i], &b[i])
        invariant
            i <= a.len(),
            i <= b.len(),
            av == strings_view(a@),
            bv == strings_view(b@),
            components_lt(av, bv) == components_lt(av.skip(i as int), bv.skip(i as int)),
        decreases a.len() - i,
    {
        assert(av.skip(i as int).drop_first() =~= av.skip(i + 1));
        assert(bv.skip(i as int).drop_first() =~= bv.skip(i + 1));
        assert(av.skip(i as int)[0] == bv.skip(i as int)[0]);
        i += 1;
    }
    if i == a.len() {
        i < b.len()
    } else if i == b.len() {
        false
    } else {
        assert(av.skip(i as int)[0] == av[i as int]);
        assert(bv.skip(i as int)[0] == bv[i as int]);
        component_less(&a[i], &b[i])
    }
}

/// Whether no path comes after one that follows it.
pub open spec fn paths_sorted(s: Seq<Seq<char>>) -> bool {
    forall|i: int, j: int| 0 <= i < j < s.len() ==> !path_lt(#[trigger] s[j], #[trigger] s[i])
}

/// Where a path goes among sorted paths, looking from `k` on: before the first that it comes
/// before, or at the end.
pub open spec fn insertion_point(sorted: Seq<Seq<char>>, x: Seq<char>, k: int) -> int
    decreases sorted.len() - k,
{
    if k < 0 || k >= sorted.len() {
        sorted.len() as int
    } else if path_lt(x, sorted[k]) {
        k
    } else {
        insertion_point(sorted, x, k + 1)
    }
}

/// The paths sorted stably: each path in turn is placed after every earlier one that it does not
/// come before, so that paths that compare equal keep their order.
pub open spec fn stable_sorted_paths(paths: Seq<Seq<char>>) -> Seq<Seq<char>>
    decreases paths.len(),
{
    if paths.len() == 0 {
        seq![]
    } else {
        let s = stable_sorted_paths(paths.drop_last());
        s.insert(insertion_point(s, paths.last(), 0), paths.last())
    }
}

/// The paths in the order of `Path`'s `Ord`; paths that compare equal keep their order.
pub fn sort_paths(paths: &Vec<String>) -> (r: Vec<String>)
    ensures
        strings_view(r@) == stable_sorted_paths(strings_view(paths@)),
        paths_sorted(strings_view(r@)),
        strings_view(r@).to_multiset() == strings_view(paths@).to_multiset(),
{
    let ghost pv = strings_view(paths@);
    let mut out: Vec<String> = Vec::new();
    let mut keys: Vec<Vec<String>> = Vec::new();
    let mut i: usize = 0;
    assert(strings_view(out@) =~= pv.take(0));
    while i < paths.len()
        invariant
            i <= paths@.len(),
            pv == strings_view(paths@),
            out@.len() == keys@.len(),
            forall|k: int| 0 <= k < keys@.len() ==> strings_view(#[trigger] keys@[k]@) == path_components_of(out@[k]@),
            paths_sorted(strings_view(out@)),
            strings_view(out@).to_multiset() == pv.take(i as int).to_multiset(),
            strings_view(out@) == stable_sorted_paths(pv.take(i as int)),
        decreases paths.len() - i,
    {
        let p = string_of(paths[i].as_str());
        let key = path_components(p.as_str());
        let mut pos: usize = 0;
        while pos < out.len() && !components_less(&key, &keys[pos])
            invariant
                pos <= out@.len(),
                out@.len() == keys@.len(),
                forall|k: int| 0 <= k < keys@.len() ==> strings_view(#[trigger] keys@[k]@) == path_components_of(out@[k]@),
                strings_view(key@) == path_components_of(p@),
                forall|k: int| 0 <= k < pos ==> !path_lt(p@, #[trigger] strings_view(out@)[k]),
                insertion_point(strings_view(out@), p@, 0) == insertion_point(strings_view(out@), p@, pos as int),
            decreases out.len() - pos,
        {
            assert(strings_view(out@)[pos as int] == out@[pos as int]@);
            pos += 1;
        }
        assert(insertion_point(strings_view(out@), p@, 0) == pos as int) by {
            if pos < out@.len() {
                assert(strings_view(out@)[pos as int] == out@[pos as int]@);
            }
        }
        let ghost before = strings_view(out@);
        let ghost out0 = out@;
        let ghost keys0 = keys@;
        proof {
            if pos < out@.len() {
                assert(before[pos as int] == out@[pos as int]@);
                assert(path_lt(p@, before[pos as int]));
            }
        }
        out.insert(pos, p);
        keys.insert(pos, key);
        let ghost after = strings_view(out@);
        assert(after =~= before.insert(pos as int, p@));
        assert forall|a: int, b: int| 0 <= a < b < after.len() implies !path_lt(#[trigger] after[b], #[trigger] after[a]) by {
            if a < pos && b == pos {
                assert(after[a] == before[a]);
            } else if a < pos && b > pos {
                assert(after[a] == before[a]);
                assert(after[b] == before[b - 1]);
            } else if a == pos && b > pos {
                assert(after[b] == before[b - 1]);
                if path_lt(after[b], p@) {
                    assert(path_lt(p@, before[pos as int]));
                    lemma_components_lt_transitive(
                        path_components_of(before[b - 1]),
                        path_components_of(p@),
                        path_components_of(before[pos as int]),
                    );
                    if b - 1 > pos {
                        assert(!path_lt(before[b - 1], before[pos as int]));
                    } else {
                        lemma_components_lt_irreflexive(path_components_of(before[pos as int]));
                    }
                }
            } else if a > pos {
                assert(after[a] == before[a - 1]);
                assert(after[b] == before[b - 1]);
            }
        }
        assert forall|k: int| 0 <= k < keys@.len() implies strings_view(#[trigger] keys@[k]@) == path_components_of(out@[k]@) by {
            if k > pos {
                assert(out@[k] == out0[k - 1]);
                assert(keys@[k] == keys0[k - 1]);
            } else if k < pos {
                assert(out@[k] == out0[k]);
                assert(keys@[k] == keys0[k]);
            }
        }
        assert(pv.take(i + 1) =~= pv.take(i as int).push(pv[i as int]));
        assert(p@ == pv[i as int]);
        assert(pv.take(i + 1).drop_last() =~= pv.take(i as int));
        proof {
            vstd::seq_lib::to_multiset_insert(before, pos as int, p@);
            vstd::seq_lib::to_multiset_build(pv.take(i as int), pv[i as int]);
        }
        i += 1;
    }
    assert(pv.take(paths.len() as int) =~= pv);
    out
}

} // verus!

verus! {

/* Finding repositories */

/// What the traversal does with a directory entry.
#[derive(Debug, Clone, Copy, PartialEq, Eq, Structural)]
pub enum EntryDecision {
    /// Not a directory to look into: a `.git` entry, a non-directory or a symlink.
    Skip,
    /// A directory that an exclusion regex matches.
    Excluded,
    /// A directory to look into (and to check for a repository).
    Descend,
}

/// `.git` entries, non-directories and symlinks are skipped, excluded directories are left out,
/// and every other directory is looked into.
pub open spec fn entry_decision_spec(
    exclusions: DirectoryExclusions,
    root: Seq<char>,
    entry_path: Seq<char>,
    file_name: Seq<char>,
    is_dir: bool,
    is_symlink: bool,
) -> EntryDecision {
    if file_name == ".git"@ || !is_dir || is_symlink {
        EntryDecision::Skip
    } else if exclusions.spec_matches(root, entry_path) {
        EntryDecision::Excluded
    } else {
        EntryDecision::Descend
    }
}

/// What the traversal of `root` does with the entry `entry_path` named `file_name`.
pub fn entry_decision(
    exclusions: &DirectoryExclusions,
    root: &str,
    entry_path: &str,
    file_name: &str,
    is_dir: bool,
    is_symlink: bool,
) -> (r: EntryDecision)
    ensures
        r == entry_decision_spec(*exclusions, root@, entry_path@, file_name@, is_dir, is_symlink),
{
    if str_eq(file_name, ".git") || !is_dir || is_symlink {
        EntryDecision::Skip
    } else if exclusions.matches(root, entry_path) {
        EntryDecision::Excluded
    } else {
        EntryDecision::Descend
    }
}

/// The top level of a work tree from `git rev-parse --show-toplevel` output: none when the
/// command failed (not a repository) or printed nothing, else its first line.
pub open spec fn repo_toplevel_spec(output: Option<Seq<char>>) -> Option<Seq<char>> {
    match output {
        Some(o) => if lines_spec(o).len() > 0 {
            Some(lines_spec(o)[0])
        } else {
            None
        },
        None => None,
    }
}

/// The top level of a work tree from `git rev-parse --show-toplevel` output.
pub fn repo_toplevel(output: Option<&str>) -> (r: Option<String>)
    ensures
        opt_view(r) == repo_toplevel_spec(opt_str_view(output)),
{
    match output {
        Some(o) => {
            let ls = lines(o);
            if ls.len() > 0 {
                assert(ls@.map_values(|l: String| l@)[0] == ls@[0]@);
                Some(string_of(ls[0].as_str()))
            } else {
                None
            }
        },
        None => None,
    }
}

/// Adds a repository, by its canonical path, unless it was found before; says whether it was
/// added.
pub fn push_repo(repos: &mut Vec<String>, canonical: &str) -> (added: bool)
    ensures
        added == !strings_view(old(repos)@).contains(canonical@),
        strings_view(final(repos)@) == (if added {
            strings_view(old(repos)@).push(canonical@)
        } else {
            strings_view(old(repos)@)
        }),
        strings_view(old(repos)@).no_duplicates() ==> strings_view(final(repos)@).no_duplicates(),
{
    if contains_string(repos, canonical) {
        return false;
    }
    let ghost before = strings_view(repos@);
    repos.push(string_of(canonical));
    assert(strings_view(repos@) =~= before.push(canonical@));
    assert(before.no_duplicates() ==> strings_view(repos@).no_duplicates()) by {
        if before.no_duplicates() {
            assert forall|a: int, b: int| 0 <= a < b < strings_view(repos@).len() implies
                strings_view(repos@)[a] != strings_view(repos@)[b] by {
                if b == before.len() {
                    assert(strings_view(repos@)[a] == before[a]);
                }
            }
        }
    }
    true
}

} // verus!

verus! {

/* Laws of the traversal */

/// `~` alone is the home directory and `~/rest` is `rest` under it; a path that does not start
/// with `~` is kept as it is, whether or not the home directory is known; only the two `~`
/// forms fail without a home directory.
pub proof fn law_expand_home(rest: Seq<char>, path: Seq<char>, home: Option<Seq<char>>)
    ensures
        home matches Some(h) ==> expand_home_spec("~"@, home) == Ok::<Seq<char>, Seq<char>>(h),
        home matches Some(h) ==> expand_home_spec("~/"@ + rest, home) == Ok::<Seq<char>, Seq<char>>(path_join_of(h, rest)),
        home is None ==> expand_home_spec("~"@, home) == Err::<Seq<char>, Seq<char>>(no_home_message()),
        home is None ==> expand_home_spec("~/"@ + rest, home) == Err::<Seq<char>, Seq<char>>(no_home_message()),
        (path.len() == 0 || path[0] != '~') ==> expand_home_spec(path, home) == Ok::<Seq<char>, Seq<char>>(path),
{
    reveal_strlit("~");
    reveal_strlit("~/");
    assert(("~/"@ + rest).take(2) =~= "~/"@);
    assert(("~/"@ + rest).skip(2) =~= rest);
    assert("~/"@ + rest != "~"@) by {
        assert(("~/"@ + rest).len() >= 2);
    }
    if path.len() == 0 || path[0] != '~' {
        assert(path != "~"@) by {
            if path == "~"@ {
                assert(path[0] == '~');
            }
        }
        if path.len() >= 2 {
            assert(path.take(2) != "~/"@) by {
                assert(path.take(2)[0] == path[0]);
            }
        }
    }
}

/// Adding a path that is already there changes nothing after removing repeats; adding a new one
/// puts it at the end: earlier paths keep their places.
pub proof fn law_dedupe_appends_new_paths(paths: Seq<Seq<char>>, p: Seq<char>)
    ensures
        paths.contains(p) ==> dedupe_spec(paths.push(p)) == dedupe_spec(paths),
        !paths.contains(p) ==> dedupe_spec(paths.push(p)) == dedupe_spec(paths).push(p),
{
    law_dedupe_keeps_each_path_once(paths);
    assert(paths.push(p).drop_last() =~= paths);
}

/// The traversal never looks into a `.git` entry, a symlink or a non-directory; it leaves out a
/// directory that an exclusion matches, and looks into every other directory.
pub proof fn law_traversal_decisions(
    exclusions: DirectoryExclusions,
    root: Seq<char>,
    entry_path: Seq<char>,
    file_name: Seq<char>,
    is_dir: bool,
    is_symlink: bool,
)
    ensures
        ({
            let d = entry_decision_spec(exclusions, root, entry_path, file_name, is_dir, is_symlink);
            let candidate = file_name != ".git"@ && is_dir && !is_symlink;
            &&& !candidate ==> d == EntryDecision::Skip
            &&& candidate && exclusions.spec_matches(root, entry_path) ==> d == EntryDecision::Excluded
            &&& candidate && !exclusions.spec_matches(root, entry_path) ==> d == EntryDecision::Descend
        }),
{
}

/// The path of `directory` from the search root `root` (all of it when it is not under the
/// root), with the platform's separators written `/`.
pub open spec fn slashed_relative(exclusions: DirectoryExclusions, root: Seq<char>, directory: Seq<char>) -> Seq<char> {
    let relative = match path_strip_prefix_of(directory, root) {
        Some(rest) => rest,
        None => directory,
    };
    replaced_char(relative, exclusions.separator(), '/')
}

/// A directory is excluded when an exclusion regex matches its name, or one matches its path
/// from the search root with the platform's separators written `/`; otherwise it is not.
pub proof fn law_exclusion_by_name_or_relative_path(
    exclusions: DirectoryExclusions,
    root: Seq<char>,
    directory: Seq<char>,
    name: Seq<char>,
    i: int,
)
    requires
        0 <= i < exclusions.patterns().len(),
    ensures
        path_file_name_of(directory) == Some(name) && regex_is_match(exclusions.patterns()[i], name)
            ==> exclusions.spec_matches(root, directory),
        regex_is_match(exclusions.patterns()[i], slashed_relative(exclusions, root, directory))
            ==> exclusions.spec_matches(root, directory),
        exclusions.spec_matches(root, directory) ==> (path_file_name_of(directory) matches Some(n)
            && some_regex_matches(exclusions.patterns(), n))
            || some_regex_matches(exclusions.patterns(), slashed_relative(exclusions, root, directory)),
{
}

} // verus!

