//! The exclusion policy and the path filter.
//!
//! A path is handled as its sequence of normal components.  The filter is a
//! pure predicate: it skips a path when one of its components names an
//! excluded directory, when its final component names an excluded file, or,
//! optionally, when the final component marks a hidden file.

use vstd::prelude::*;

verus! {

use vstd::string::StrSliceExecFns;
use vstd::string::StringExecFns;

/// How names from the excluded-directory set are matched against a path.
#[derive(Clone, Copy, PartialEq, Eq, Structural, Debug)]
pub enum MatchMode {
    /// An excluded name must equal one whole path component.
    ExactComponent,
    /// An excluded name need only occur as a contiguous substring of the
    /// full path text (components joined by `/`).
    Substring,
}

/// The exclusion policy for one run: which directory names and file names
/// suppress a path, how directory names are matched, and whether hidden
/// files (final component starting with `.`) are skipped as well.
pub struct Config {
    pub exclude_dirs: Vec<String>,
    pub exclude_files: Vec<String>,
    pub match_mode: MatchMode,
    pub skip_hidden: bool,
}

impl Config {
    /// The excluded directory names, as sequences of characters.
    pub open spec fn dirs(&self) -> Seq<Seq<char>> {
        self.exclude_dirs.deep_view()
    }

    /// The excluded file names, as sequences of characters.
    pub open spec fn files(&self) -> Seq<Seq<char>> {
        self.exclude_files.deep_view()
    }
}

/// The built-in excluded directory names.
pub open spec fn default_exclude_dirs_spec() -> Seq<Seq<char>> {
    seq![
        "target"@,
        ".git"@,
        "node_modules"@,
        ".venv"@,
        "__pycache__"@,
        ".cache"@,
        "build"@,
        "zig-out"@,
        ".zig-cache"@,
    ]
}

/// The built-in excluded file names.
pub open spec fn default_exclude_files_spec() -> Seq<Seq<char>> {
    seq!["Cargo.lock"@, "poetry.lock"@, "package-lock.json"@]
}

/// The built-in excluded directory names: version-control metadata and
/// dependency or build caches.
pub fn default_exclude_dirs() -> (r: Vec<String>)
    ensures
        r.deep_view() == default_exclude_dirs_spec(),
{
    let mut v: Vec<String> = Vec::new();
    v.push("target".to_owned());
    v.push(".git".to_owned());
    v.push("node_modules".to_owned());
    v.push(".venv".to_owned());
    v.push("__pycache__".to_owned());
    v.push(".cache".to_owned());
    v.push("build".to_owned());
    v.push("zig-out".to_owned());
    v.push(".zig-cache".to_owned());
    proof {
        assert(v.deep_view() =~= default_exclude_dirs_spec());
    }
    v
}

/// The built-in excluded file names: lock files of common package managers.
pub fn default_exclude_files() -> (r: Vec<String>)
    ensures
        r.deep_view() == default_exclude_files_spec(),
{
    let mut v: Vec<String> = Vec::new();
    v.push("Cargo.lock".to_owned());
    v.push("poetry.lock".to_owned());
    v.push("package-lock.json".to_owned());
    proof {
        assert(v.deep_view() =~= default_exclude_files_spec());
    }
    v
}

impl Default for Config {
    /// The baseline policy: built-in exclusion lists, exact component
    /// matching, hidden files kept.
    fn default() -> (r: Config)
        ensures
            r.exclude_dirs.deep_view() == default_exclude_dirs_spec(),
            r.exclude_files.deep_view() == default_exclude_files_spec(),
            r.match_mode == MatchMode::ExactComponent,
            r.skip_hidden == false,
    {
        Config {
            exclude_dirs: default_exclude_dirs(),
            exclude_files: default_exclude_files(),
            match_mode: MatchMode::ExactComponent,
            skip_hidden: false,
        }
    }
}

/// Build the effective policy for a run: an explicit override replaces the
/// corresponding list of `base` wholesale; an absent override leaves it
/// untouched.  Nothing is merged.
pub fn apply_overrides(base: Config, dirs: Option<Vec<String>>, files: Option<Vec<String>>) -> (r:
    Config)
    ensures
        dirs is Some ==> r.exclude_dirs == dirs->0,
        dirs is None ==> r.exclude_dirs == base.exclude_dirs,
        files is Some ==> r.exclude_files == files->0,
        files is None ==> r.exclude_files == base.exclude_files,
        r.match_mode == base.match_mode,
        r.skip_hidden == base.skip_hidden,
{
    let mut c = base;
    match dirs {
        Some(d) => {
            c.exclude_dirs = d;
        },
        None => {},
    }
    match files {
        Some(f) => {
            c.exclude_files = f;
        },
        None => {},
    }
    c
}

/// Some component of the path equals some excluded directory name.
pub open spec fn dir_component_hit(path: Seq<Seq<char>>, dirs: Seq<Seq<char>>) -> bool {
    exists|i: int, j: int| 0 <= i < path.len() && 0 <= j < dirs.len() && path[i] == dirs[j]
}

/// `needle` occurs in `hay` starting at position `i`.
pub open spec fn substring_at(hay: Seq<char>, needle: Seq<char>, i: int) -> bool {
    0 <= i && i + needle.len() <= hay.len() && hay.subrange(i, i + needle.len()) == needle
}

/// `needle` occurs somewhere in `hay` as a contiguous run.
pub open spec fn is_substring(hay: Seq<char>, needle: Seq<char>) -> bool {
    exists|i: int| substring_at(hay, needle, i)
}

/// Some excluded directory name occurs as a substring of the path text.
pub open spec fn substring_hit(path_text: Seq<char>, dirs: Seq<Seq<char>>) -> bool {
    exists|j: int| 0 <= j < dirs.len() && is_substring(path_text, dirs[j])
}

/// The path's components joined by `/`.
pub open spec fn joined(path: Seq<Seq<char>>) -> Seq<char>
    decreases path.len(),
{
    if path.len() == 0 {
        Seq::empty()
    } else if path.len() == 1 {
        path[0]
    } else {
        joined(path.drop_last()) + seq!['/'] + path.last()
    }
}

/// The final component equals some excluded file name.
pub open spec fn file_name_hit(path: Seq<Seq<char>>, files: Seq<Seq<char>>) -> bool {
    path.len() > 0 && files.contains(path.last())
}

/// The final component marks a hidden file and hidden files are skipped.
pub open spec fn hidden_hit(path: Seq<Seq<char>>, skip_hidden: bool) -> bool {
    skip_hidden && path.len() > 0 && path.last().len() > 0 && path.last()[0] == '.'
}

/// The filter's decision: skip the path exactly when the directory check
/// (under the configured match mode), the file-name check, or the hidden-file
/// check fires.
pub open spec fn skip_spec(path: Seq<Seq<char>>, c: Config) -> bool {
    ||| match c.match_mode {
        MatchMode::ExactComponent => dir_component_hit(path, c.dirs()),
        MatchMode::Substring => substring_hit(joined(path), c.dirs()),
    }
    ||| file_name_hit(path, c.files())
    ||| hidden_hit(path, c.skip_hidden)
}

/// Whether `v` holds a string equal to `name`.
fn contains_string(v: &Vec<String>, name: &String) -> (r: bool)
    ensures
        r == v.deep_view().contains(name@),
{
    let mut j: usize = 0;
    while j < v.len()
        invariant
            j <= v.len(),
            forall|t: int| 0 <= t < j ==> v.deep_view()[t] != name@,
        decreases v.len() - j,
    {
        if v[j] == *name {
            proof {
                assert(v.deep_view()[j as int] == name@);
            }
            return true;
        }
        j += 1;
    }
    false
}

/// Whether some component of `path` is named in `dirs`.
fn any_component_in(path: &Vec<String>, dirs: &Vec<String>) -> (r: bool)
    ensures
        r == dir_component_hit(path.deep_view(), dirs.deep_view()),
{
    let mut i: usize = 0;
    while i < path.len()
        invariant
            i <= path.len(),
            forall|a: int, b: int|
                0 <= a < i && 0 <= b < dirs.deep_view().len() ==> path.deep_view()[a]
                    != dirs.deep_view()[b],
        decreases path.len() - i,
    {
        if contains_string(dirs, &path[i]) {
            proof {
                let t = choose|t: int|
                    0 <= t < dirs.deep_view().len() && dirs.deep_view()[t] == path[i as int]@;
                assert(path.deep_view()[i as int] == dirs.deep_view()[t]);
            }
            return true;
        }
        i += 1;
    }
    false
}

/// The characters of `s`, in order, as a vector.
fn chars_of(s: &str) -> (v: Vec<char>)
    ensures
        v@ == s@,
{
    let n = s.unicode_len();
    let mut v: Vec<char> = Vec::new();
    let mut i: usize = 0;
    while i < n
        invariant
            n == s@.len(),
            i <= n,
            v@ == s@.take(i as int),
        decreases n - i,
    {
        v.push(s.get_char(i));
        proof {
            assert(v@ =~= s@.take(i + 1));
        }
        i += 1;
    }
    proof {
        assert(s@.take(n as int) =~= s@);
    }
    v
}

/// Whether `needle` matches `hay` at position `i`.
fn match_at(hay: &Vec<char>, needle: &Vec<char>, i: usize) -> (r: bool)
    requires
        i + needle@.len() <= hay@.len(),
    ensures
        r == substring_at(hay@, needle@, i as int),
{
    let hay_len = hay.len();
    let mut j: usize = 0;
    while j < needle.len()
        invariant
            j <= needle.len(),
            hay_len == hay@.len(),
            i + needle@.len() <= hay@.len(),
            forall|t: int| 0 <= t < j ==> hay@[i + t] == needle@[t],
        decreases needle.len() - j,
    {
        if hay[i + j] != needle[j] {
            proof {
                assert(hay@.subrange(i as int, i + needle@.len())[j as int] == hay@[i + j]);
            }
            return false;
        }
        j += 1;
    }
    proof {
        assert(hay@.subrange(i as int, i + needle@.len()) =~= needle@);
    }
    true
}

/// Whether `needle` occurs anywhere in `hay`.
fn contains_sub(hay: &Vec<char>, needle: &Vec<char>) -> (r: bool)
    ensures
        r == is_substring(hay@, needle@),
{
    if needle.len() == 0 {
        proof {
            assert(hay@.subrange(0, 0) =~= needle@);
            assert(substring_at(hay@, needle@, 0));
        }
        return true;
    }
    if needle.len() > hay.len() {
        proof {
            assert(forall|i: int| !substring_at(hay@, needle@, i));
        }
        return false;
    }
    let bound = hay.len() - needle.len();
    let mut i: usize = 0;
    while i <= bound
        invariant
            1 <= needle@.len() <= hay@.len(),
            bound == hay@.len() - needle@.len(),
            bound + 1 <= usize::MAX,
            i <= bound + 1,
            forall|k: int| 0 <= k < i ==> !substring_at(hay@, needle@, k),
        decreases bound + 1 - i,
    {
        if match_at(hay, needle, i) {
            return true;
        }
        i += 1;
    }
    proof {
        assert(forall|k: int| substring_at(hay@, needle@, k) ==> 0 <= k < i);
    }
    false
}

/// Whether some name in `dirs` occurs as a substring of `hay`.
fn any_substring_in(hay: &Vec<char>, dirs: &Vec<String>) -> (r: bool)
    ensures
        r == substring_hit(hay@, dirs.deep_view()),
{
    let mut j: usize = 0;
    while j < dirs.len()
        invariant
            j <= dirs.len(),
            forall|t: int| 0 <= t < j ==> !is_substring(hay@, dirs.deep_view()[t]),
        decreases dirs.len() - j,
    {
        let needle = chars_of(dirs[j].as_str());
        if contains_sub(hay, &needle) {
            proof {
                assert(is_substring(hay@, dirs.deep_view()[j as int]));
            }
            return true;
        }
        j += 1;
    }
    false
}

/// The path's components joined by `/` into one text.
pub(crate) fn join_components(path: &Vec<String>) -> (r: String)
    ensures
        r@ == joined(path.deep_view()),
{
    let mut out = String::new();
    let mut i: usize = 0;
    while i < path.len()
        invariant
            i <= path.len(),
            out@ == joined(path.deep_view().take(i as int)),
        decreases path.len() - i,
    {
        if i > 0 {
            out.append("/");
        }
        out.append(path[i].as_str());
        proof {
            reveal_strlit("/");
            let pre = path.deep_view().take(i as int);
            let cur = path.deep_view().take(i + 1);
            assert(cur.drop_last() =~= pre);
            if i == 0 {
                assert(out@ =~= joined(cur));
            } else {
                assert(out@ =~= joined(pre) + seq!['/'] + cur.last());
            }
        }
        i += 1;
    }
    proof {
        assert(path.deep_view().take(path.len() as int) =~= path.deep_view());
    }
    out
}

/// The filter: decide whether `path` (given as its normal components) must be
/// skipped under `config`.  Pure and deterministic; skips exactly the paths
/// that `skip_spec` describes.
pub fn should_skip_path(path: &Vec<String>, config: &Config) -> (r: bool)
    ensures
        r == skip_spec(path.deep_view(), *config),
{
    let dir_hit: bool = match config.match_mode {
        MatchMode::ExactComponent => any_component_in(path, &config.exclude_dirs),
        MatchMode::Substring => {
            let text = join_components(path);
            let text_chars = chars_of(text.as_str());
            any_substring_in(&text_chars, &config.exclude_dirs)
        },
    };
    if dir_hit {
        return true;
    }
    if path.len() > 0 {
        let name = &path[path.len() - 1];
        proof {
            assert(path.deep_view().last() == name@);
        }
        if contains_string(&config.exclude_files, name) {
            return true;
        }
        if config.skip_hidden && !name.as_str().is_empty() {
            if name.as_str().get_char(0) == '.' {
                return true;
            }
        }
    }
    false
}

} // verus!

