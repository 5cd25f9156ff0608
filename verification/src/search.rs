//! Finding a command in the directories of a search path.
use vstd::prelude::*;
use rayon::prelude::{IntoParallelRefIterator, ParallelIterator};
use crate::filesystem::{FileSystem, FsError, names_of};
use crate::options::{Options, Platform, check_option, option_matches, names_view};
use crate::pattern::{Pattern, compile_pattern, regex_compile_error, regex_is_match};
use crate::text::{
    chars_of, string_of, append_chars, trim, trim_chars, has_pair, has_pair_chars, split_on,
    split_chars, contains_char, starts_with_chars,
};

verus! {

/// Why a search failed.
pub enum Failure {
    NotFound(Seq<char>),
    NotExecutable(Seq<char>),
    InvalidPattern(Seq<char>, Seq<char>),
    Fs(Seq<char>),
}

/// Why a search failed, as returned to the caller.
#[derive(Debug)]
pub enum WhichError {
    /// The command is nowhere to be found.
    NotFound(String),
    /// The command was given as a path to a file that cannot be executed.
    NotExecutable(String),
    /// The command, read as a regular expression, does not compile.
    InvalidPattern { pattern: String, reason: String },
    /// The file system failed.
    Fs(FsError),
}

impl View for WhichError {
    type V = Failure;

    open spec fn view(&self) -> Failure {
        match self {
            WhichError::NotFound(c) => Failure::NotFound(c@),
            WhichError::NotExecutable(c) => Failure::NotExecutable(c@),
            WhichError::InvalidPattern { pattern, reason } => Failure::InvalidPattern(
                pattern@,
                reason@,
            ),
            WhichError::Fs(e) => Failure::Fs(e@),
        }
    }
}

/// The text a failure is reported with.
pub open spec fn failure_message(f: Failure) -> Seq<char> {
    match f {
        Failure::NotFound(c) => c + " not found"@,
        Failure::NotExecutable(c) => c + " is not executable"@,
        Failure::InvalidPattern(p, why) => "Invalid regex pattern '"@ + p + "': "@ + why,
        Failure::Fs(m) => m,
    }
}

impl WhichError {
    /// The text this failure is reported with.
    pub fn message(&self) -> (r: String)
        ensures
            r@ == failure_message(self@),
    {
        match self {
            WhichError::NotFound(c) => {
                let mut s = c.clone();
                s.append(" not found");
                s
            },
            WhichError::NotExecutable(c) => {
                let mut s = c.clone();
                s.append(" is not executable");
                s
            },
            WhichError::InvalidPattern { pattern, reason } => {
                let mut s = "Invalid regex pattern '".to_owned();
                s.append(pattern.as_str());
                s.append("': ");
                s.append(reason.as_str());
                s
            },
            WhichError::Fs(e) => e.message.clone(),
        }
    }
}

/// The view of a search outcome.
pub open spec fn outcome_view(r: Result<Vec<String>, WhichError>) -> Result<Seq<Seq<char>>, Failure> {
    match r {
        Ok(v) => Ok(names_of(v@)),
        Err(e) => Err(e@),
    }
}

/// Switch `name` is set to `true`.
pub open spec fn flag_on(opts: Map<Seq<char>, bool>, name: Seq<char>) -> bool {
    option_matches(opts, seq![name], true)
}

/// Every match is wanted, not only the first (`all`, else `-a`).
pub open spec fn wants_all(opts: Map<Seq<char>, bool>) -> bool {
    option_matches(opts, seq!["all"@, "-a"@], true)
}

/// The command is a regular expression over file names.
pub open spec fn wants_regex(opts: Map<Seq<char>, bool>) -> bool {
    flag_on(opts, "regex"@)
}

/// `s` begins with `c`.
pub open spec fn starts_with_char(s: Seq<char>, c: char) -> bool {
    s.len() > 0 && s[0] == c
}

/// A search path entry that `skip_dot` or `skip_tilde` leaves out: once
/// trimmed, it starts with the mark, or the mark follows a separator in it.
pub open spec fn skips_dir(dir: Seq<char>, opts: Map<Seq<char>, bool>) -> bool {
    let d = trim(dir);
    ||| flag_on(opts, "skip_dot"@) && (starts_with_char(d, '.') || has_pair(d, '/', '.') || has_pair(
        d,
        '\\',
        '.',
    ))
    ||| flag_on(opts, "skip_tilde"@) && (starts_with_char(d, '~') || has_pair(d, '/', '~')
        || has_pair(d, '\\', '~'))
}

/// The entries of `pieces` that are searched: the non-empty ones that are not skipped.
pub open spec fn kept_dirs(pieces: Seq<Seq<char>>, opts: Map<Seq<char>, bool>) -> Seq<Seq<char>>
    decreases pieces.len(),
{
    if pieces.len() == 0 {
        Seq::empty()
    } else {
        let before = kept_dirs(pieces.drop_last(), opts);
        let d = pieces.last();
        if d.len() > 0 && !skips_dir(d, opts) {
            before.push(d)
        } else {
            before
        }
    }
}

/// The directories searched, in the order of the search path, whose entries
/// are separated by `sep`.
pub open spec fn search_dirs(path_var: Seq<char>, opts: Map<Seq<char>, bool>, sep: char) -> Seq<
    Seq<char>,
> {
    kept_dirs(split_on(path_var, sep), opts)
}

/// `name` placed in directory `dir`, as `Path::join` places it under Unix
/// path rules, which the search uses on every platform: a name that starts
/// with `/` stands alone, and a `/` is put in between unless `dir` is empty
/// or already ends with one.
pub open spec fn join_path(dir: Seq<char>, name: Seq<char>) -> Seq<char> {
    if starts_with_char(name, '/') {
        name
    } else if dir.len() > 0 && dir.last() != '/' {
        dir + seq!['/'] + name
    } else {
        dir + name
    }
}

/// The canonical form of `path` when it is an executable file that can be canonicalized.
pub open spec fn probe<F: FileSystem>(fs: &F, path: Seq<char>) -> Option<Seq<char>> {
    if fs.fs_is_file(path) && fs.fs_is_executable(path) {
        match fs.fs_canonicalize(path) {
            Ok(c) => Some(c),
            Err(_) => None,
        }
    } else {
        None
    }
}

/// The names a command is looked for under in a directory: the command
/// itself, or, where executables carry an extension, the command followed by
/// each extension in turn.
pub open spec fn candidates(cmd: Seq<char>, exts: Option<Seq<Seq<char>>>) -> Seq<Seq<char>> {
    match exts {
        None => seq![cmd],
        Some(e) => e.map_values(|x: Seq<char>| cmd + x),
    }
}

/// The canonical forms of the executables found under `names` in `dir`, in
/// the order of `names`.
pub open spec fn probed_hits<F: FileSystem>(fs: &F, dir: Seq<char>, names: Seq<Seq<char>>) -> Seq<
    Seq<char>,
>
    decreases names.len(),
{
    if names.len() == 0 {
        Seq::empty()
    } else {
        let before = probed_hits(fs, dir, names.drop_last());
        match probe(fs, join_path(dir, names.last())) {
            Some(c) => before.push(c),
            None => before,
        }
    }
}

/// The entries `names` of `dir` whose names match `pattern` and that are
/// executable files, each as its own path in `dir`.
pub open spec fn named_hits<F: FileSystem>(
    fs: &F,
    dir: Seq<char>,
    pattern: Seq<char>,
    names: Seq<Seq<char>>,
) -> Seq<Seq<char>>
    decreases names.len(),
{
    if names.len() == 0 {
        Seq::empty()
    } else {
        let before = named_hits(fs, dir, pattern, names.drop_last());
        let name = names.last();
        if regex_is_match(pattern, name) && probe(fs, join_path(dir, name)) is Some {
            before.push(join_path(dir, name))
        } else {
            before
        }
    }
}

/// What one directory contributes: the command under each of its candidate
/// names, or, with a pattern, each matching entry of the directory in
/// listing order.
pub open spec fn dir_hits<F: FileSystem>(
    fs: &F,
    cmd: Seq<char>,
    pattern: Option<Seq<char>>,
    exts: Option<Seq<Seq<char>>>,
    dir: Seq<char>,
) -> Seq<Seq<char>> {
    match pattern {
        None => probed_hits(fs, dir, candidates(cmd, exts)),
        Some(p) => match fs.fs_read_dir(dir) {
            Some(names) => named_hits(fs, dir, p, names),
            None => Seq::empty(),
        },
    }
}

/// Every hit, directory by directory in search order.
pub open spec fn all_hits<F: FileSystem>(
    fs: &F,
    cmd: Seq<char>,
    pattern: Option<Seq<char>>,
    exts: Option<Seq<Seq<char>>>,
    dirs: Seq<Seq<char>>,
) -> Seq<Seq<char>>
    decreases dirs.len(),
{
    if dirs.len() == 0 {
        Seq::empty()
    } else {
        all_hits(fs, cmd, pattern, exts, dirs.drop_last()) + dir_hits(
            fs,
            cmd,
            pattern,
            exts,
            dirs.last(),
        )
    }
}

/// `s` with every repeated element dropped, keeping first occurrences in order.
pub open spec fn first_occurrences(s: Seq<Seq<char>>) -> Seq<Seq<char>>
    decreases s.len(),
{
    if s.len() == 0 {
        Seq::empty()
    } else {
        let before = first_occurrences(s.drop_last());
        if before.contains(s.last()) {
            before
        } else {
            before.push(s.last())
        }
    }
}

/// How a found path is shown: unchanged with `show_dot`; with `show_tilde`, a
/// path inside the home directory is written from `~`.
pub open spec fn format_path(
    path: Seq<char>,
    opts: Map<Seq<char>, bool>,
    home: Option<Seq<char>>,
) -> Seq<char> {
    if flag_on(opts, "show_dot"@) {
        path
    } else if flag_on(opts, "show_tilde"@) && home is Some && home->0.len() <= path.len()
        && path.take(home->0.len() as int) == home->0 {
        let rel = path.skip(home->0.len() as int);
        if rel.len() > 0 && (rel[0] == '/' || rel[0] == '\\') {
            seq!['~'] + rel
        } else if rel.len() == 0 {
            seq!['~']
        } else {
            path
        }
    } else {
        path
    }
}

/// The answer for the hits of a search: each distinct hit (or only the
/// first, without `all`), formatted; a failure when there is none.
pub open spec fn select_spec(
    cmd: Seq<char>,
    hits: Seq<Seq<char>>,
    opts: Map<Seq<char>, bool>,
    home: Option<Seq<char>>,
) -> Result<Seq<Seq<char>>, Failure> {
    let found = first_occurrences(hits);
    if found.len() == 0 {
        Err(Failure::NotFound(cmd))
    } else if wants_all(opts) {
        Ok(found.map_values(|p: Seq<char>| format_path(p, opts, home)))
    } else {
        Ok(seq![format_path(found[0], opts, home)])
    }
}

/// The command names a path itself.
pub open spec fn has_separator(cmd: Seq<char>) -> bool {
    cmd.contains('/') || cmd.contains('\\')
}

/// The answer of a search for `cmd` in `fs` along `path_var`.
pub open spec fn which_spec<F: FileSystem>(
    fs: &F,
    cmd: Seq<char>,
    opts: Map<Seq<char>, bool>,
    home: Option<Seq<char>>,
    platform: Platform,
    path_var: Seq<char>,
) -> Result<Seq<Seq<char>>, Failure> {
    if has_separator(cmd) {
        if !fs.fs_is_file(cmd) {
            Err(Failure::NotFound(cmd))
        } else if !fs.fs_is_executable(cmd) {
            Err(Failure::NotExecutable(cmd))
        } else {
            match fs.fs_canonicalize(cmd) {
                Ok(c) => Ok(seq![c]),
                Err(m) => Err(Failure::Fs(m)),
            }
        }
    } else if wants_regex(opts) && regex_compile_error(cmd) is Some {
        Err(Failure::InvalidPattern(cmd, regex_compile_error(cmd)->0))
    } else {
        let pattern = if wants_regex(opts) {
            Some(cmd)
        } else {
            None
        };
        select_spec(
            cmd,
            all_hits(
                fs,
                cmd,
                pattern,
                platform.extensions,
                search_dirs(path_var, opts, platform.separator),
            ),
            opts,
            home,
        )
    }
}

/// Each of `names` placed in each of `dirs`, directory by directory.
pub open spec fn probe_paths(dirs: Seq<Seq<char>>, names: Seq<Seq<char>>) -> Seq<Seq<char>>
    decreases dirs.len(),
{
    if dirs.len() == 0 {
        Seq::empty()
    } else {
        probe_paths(dirs.drop_last(), names) + names.map_values(
            |n: Seq<char>| join_path(dirs.last(), n),
        )
    }
}

/// The paths whose file facts (is a file, is executable, canonical form) a
/// search for `cmd` asks about, besides the entries of the listed directories.
pub open spec fn planned_paths(
    cmd: Seq<char>,
    opts: Map<Seq<char>, bool>,
    platform: Platform,
    path_var: Seq<char>,
) -> Seq<Seq<char>> {
    if has_separator(cmd) {
        seq![cmd]
    } else if wants_regex(opts) {
        Seq::empty()
    } else {
        probe_paths(
            search_dirs(path_var, opts, platform.separator),
            candidates(cmd, platform.extensions),
        )
    }
}

/// The directories a search for `cmd` lists.
pub open spec fn planned_dirs(
    cmd: Seq<char>,
    opts: Map<Seq<char>, bool>,
    platform: Platform,
    path_var: Seq<char>,
) -> Seq<Seq<char>> {
    if !has_separator(cmd) && wants_regex(opts) {
        search_dirs(path_var, opts, platform.separator)
    } else {
        Seq::empty()
    }
}

/// What a search asks a file system about: the paths it probes, and the
/// directories it lists (whose entries, placed in the directory, it then probes).
pub struct SearchPlan {
    pub paths: Vec<String>,
    pub dirs: Vec<String>,
}

/// Whether switch `name` is set to `true`.
fn flag(options: &Options, name: &str) -> (r: bool)
    ensures
        r == flag_on(options@, name@),
{
    let keys = vec![name];
    assert(names_view(keys@) =~= seq![name@]);
    check_option(options, keys, true)
}

/// Whether search path entry `dir` is left out: with `skip_dot`, when it
/// (trimmed) starts with `.` or has `.` after a separator; with `skip_tilde`,
/// likewise for `~`.
pub fn should_skip_directory(dir: &str, options: &Options) -> (r: bool)
    ensures
        r == skips_dir(dir@, options@),
{
    let d = trim_chars(&chars_of(dir));
    let skip_dot = flag(options, "skip_dot");
    if skip_dot && ((d.len() > 0 && d[0] == '.') || has_pair_chars(&d, '/', '.') || has_pair_chars(
        &d,
        '\\',
        '.',
    )) {
        return true;
    }
    let skip_tilde = flag(options, "skip_tilde");
    if skip_tilde && ((d.len() > 0 && d[0] == '~') || has_pair_chars(&d, '/', '~')
        || has_pair_chars(&d, '\\', '~')) {
        return true;
    }
    false
}

/// How `path` is shown under `options` (see `format_path`).
pub fn format_path_output(path: &str, options: &Options) -> (r: String)
    ensures
        r@ == format_path(path@, options@, options.home_dir()),
{
    if flag(options, "show_dot") {
        return path.to_owned();
    }
    if flag(options, "show_tilde") {
        if let Some(home) = options.home() {
            let p = chars_of(path);
            let h = chars_of(home);
            if starts_with_chars(&p, &h) {
                let n = p.len();
                let mut rel: Vec<char> = Vec::new();
                let mut i = h.len();
                while i < n
                    invariant
                        h@.len() <= i <= n == p@.len(),
                        rel@ == p@.subrange(h@.len() as int, i as int),
                    decreases n - i,
                {
                    rel.push(p[i]);
                    i = i + 1;
                    assert(rel@ =~= p@.subrange(h@.len() as int, i as int));
                }
                assert(rel@ =~= p@.skip(h@.len() as int));
                if rel.len() > 0 && (rel[0] == '/' || rel[0] == '\\') {
                    let mut out: Vec<char> = Vec::new();
                    out.push('~');
                    append_chars(&mut out, &rel);
                    assert(out@ =~= seq!['~'] + rel@);
                    return string_of(&out);
                } else if rel.len() == 0 {
                    let mut out: Vec<char> = Vec::new();
                    out.push('~');
                    assert(out@ =~= seq!['~']);
                    return string_of(&out);
                }
            }
        }
    }
    path.to_owned()
}

/// `name` placed in directory `dir` by Unix path rules (see `join_path`).
pub fn join_path_str(dir: &str, name: &str) -> (r: String)
    ensures
        r@ == join_path(dir@, name@),
{
    let d = chars_of(dir);
    let n = chars_of(name);
    if n.len() > 0 && n[0] == '/' {
        return name.to_owned();
    }
    let mut out = d;
    if out.len() > 0 && out[out.len() - 1] != '/' {
        out.push('/');
    }
    append_chars(&mut out, &n);
    proof {
        if d@.len() > 0 && d@.last() != '/' {
            assert(out@ =~= d@ + seq!['/'] + n@);
        } else {
            assert(out@ =~= d@ + n@);
        }
    }
    string_of(&out)
}

/// The directories of `path_var` that a search visits, in order.
pub fn search_dirs_of(path_var: &str, options: &Options) -> (r: Vec<String>)
    ensures
        names_of(r@) == search_dirs(path_var@, options@, options.platform().separator),
{
    let sep = options.path_separator();
    let pieces = split_chars(&chars_of(path_var), sep);
    let ghost pv = pieces@.map_values(|v: Vec<char>| v@);
    let mut r: Vec<String> = Vec::new();
    let mut i: usize = 0;
    while i < pieces.len()
        invariant
            i <= pieces@.len(),
            pv == pieces@.map_values(|v: Vec<char>| v@),
            pv == split_on(path_var@, sep),
            names_of(r@) == kept_dirs(pv.take(i as int), options@),
        decreases pieces.len() - i,
    {
        let d = string_of(&pieces[i]);
        assert(pv.take(i + 1).drop_last() =~= pv.take(i as int));
        assert(pv.take(i + 1).last() == d@);
        let d_nonempty = pieces[i].len() > 0;
        if d_nonempty && !should_skip_directory(d.as_str(), options) {
            let ghost before = r@;
            r.push(d);
            assert(names_of(r@) =~= names_of(before).push(pv[i as int]));
        }
        i = i + 1;
    }
    assert(pv.take(pieces@.len() as int) =~= pv);
    r
}

/// The view of an optional extension list.
pub open spec fn exts_view(e: Option<&Vec<String>>) -> Option<Seq<Seq<char>>> {
    match e {
        Some(v) => Some(names_of(v@)),
        None => None,
    }
}

/// The names `cmd` is looked for under (see `candidates`).
fn candidate_names(cmd: &str, exts: Option<&Vec<String>>) -> (r: Vec<String>)
    ensures
        names_of(r@) == candidates(cmd@, exts_view(exts)),
{
    match exts {
        None => {
            let r = vec![cmd.to_owned()];
            assert(names_of(r@) =~= seq![cmd@]);
            r
        },
        Some(e) => {
            let ghost ev = names_of(e@);
            let mut r: Vec<String> = Vec::new();
            let mut i: usize = 0;
            while i < e.len()
                invariant
                    i <= e@.len(),
                    ev == names_of(e@),
                    r@.len() == i,
                    forall|k: int| 0 <= k < i ==> #[trigger] r@[k]@ == cmd@ + ev[k],
                decreases e.len() - i,
            {
                let mut n = cmd.to_owned();
                n.append(e[i].as_str());
                assert(ev[i as int] == e@[i as int]@);
                r.push(n);
                i = i + 1;
            }
            assert(names_of(r@) =~= ev.map_values(|x: Seq<char>| cmd@ + x));
            r
        },
    }
}

/// What a search for `cmd` along `path_var` asks a file system about, so
/// that the answers can be gathered before the search runs.
pub fn search_plan(cmd: &str, options: &Options, path_var: &str) -> (r: SearchPlan)
    ensures
        names_of(r.paths@) == planned_paths(cmd@, options@, options.platform(), path_var@),
        names_of(r.dirs@) == planned_dirs(cmd@, options@, options.platform(), path_var@),
{
    let c = chars_of(cmd);
    if contains_char(&c, '/') || contains_char(&c, '\\') {
        let paths = vec![cmd.to_owned()];
        let dirs: Vec<String> = Vec::new();
        assert(names_of(paths@) =~= seq![cmd@]);
        assert(names_of(dirs@) =~= Seq::<Seq<char>>::empty());
        return SearchPlan { paths, dirs };
    }
    let dirs = search_dirs_of(path_var, options);
    if flag(options, "regex") {
        let paths: Vec<String> = Vec::new();
        assert(names_of(paths@) =~= Seq::<Seq<char>>::empty());
        return SearchPlan { paths, dirs };
    }
    let cands = candidate_names(cmd, options.extensions());
    let ghost dv = names_of(dirs@);
    let ghost cv = names_of(cands@);
    let mut paths: Vec<String> = Vec::new();
    let mut i: usize = 0;
    assert(names_of(paths@) =~= probe_paths(dv.take(0), cv));
    while i < dirs.len()
        invariant
            i <= dirs@.len(),
            dv == names_of(dirs@),
            cv == names_of(cands@),
            names_of(paths@) == probe_paths(dv.take(i as int), cv),
        decreases dirs.len() - i,
    {
        let ghost base = names_of(paths@);
        let ghost d = dv[i as int];
        assert(d == dirs@[i as int]@);
        let mut j: usize = 0;
        while j < cands.len()
            invariant
                i < dirs@.len(),
                j <= cands@.len(),
                dv == names_of(dirs@),
                cv == names_of(cands@),
                d == dirs@[i as int]@,
                names_of(paths@) == base + cv.take(j as int).map_values(
                    |n: Seq<char>| join_path(d, n),
                ),
            decreases cands.len() - j,
        {
            let p = join_path_str(dirs[i].as_str(), cands[j].as_str());
            let ghost before = names_of(paths@);
            paths.push(p);
            assert(names_of(paths@) =~= before.push(p@));
            assert(cv[j as int] == cands@[j as int]@);
            assert(cv.take(j + 1).map_values(|n: Seq<char>| join_path(d, n)) =~= cv.take(
                j as int,
            ).map_values(|n: Seq<char>| join_path(d, n)).push(join_path(d, cv[j as int])));
            j = j + 1;
        }
        assert(cv.take(cands@.len() as int) =~= cv);
        assert(dv.take(i + 1).drop_last() =~= dv.take(i as int));
        assert(dv.take(i + 1).last() == d);
        i = i + 1;
    }
    assert(dv.take(dirs@.len() as int) =~= dv);
    let none: Vec<String> = Vec::new();
    assert(names_of(none@) =~= Seq::<Seq<char>>::empty());
    SearchPlan { paths, dirs: none }
}

/// The canonical form of `path` when it is an executable file.
fn probe_path<F: FileSystem>(fs: &F, path: &str) -> (r: Option<String>)
    ensures
        match r {
            Some(c) => probe(fs, path@) == Some(c@),
            None => probe(fs, path@) is None,
        },
{
    if fs.is_file(path) && fs.is_executable(path) {
        match fs.canonicalize(path) {
            Ok(c) => Some(c),
            Err(_) => None,
        }
    } else {
        None
    }
}

/// The view of an optional pattern.
pub open spec fn pattern_view(p: Option<&Pattern>) -> Option<Seq<char>> {
    match p {
        Some(p) => Some(p@),
        None => None,
    }
}

/// The view of an optional owned pattern.
pub open spec fn owned_pattern_view(p: Option<Pattern>) -> Option<Seq<char>> {
    match p {
        Some(p) => Some(p@),
        None => None,
    }
}

/// The canonical forms of the executables found under `names` in `dir`
/// (see `probed_hits`).
fn probe_names<F: FileSystem>(fs: &F, dir: &str, names: &Vec<String>) -> (r: Vec<String>)
    ensures
        names_of(r@) == probed_hits(fs, dir@, names_of(names@)),
{
    let ghost nv = names_of(names@);
    let mut r: Vec<String> = Vec::new();
    let mut i: usize = 0;
    while i < names.len()
        invariant
            i <= names@.len(),
            nv == names_of(names@),
            names_of(r@) == probed_hits(fs, dir@, nv.take(i as int)),
        decreases names.len() - i,
    {
        assert(nv.take(i + 1).drop_last() =~= nv.take(i as int));
        assert(nv.take(i + 1).last() == names@[i as int]@);
        let full = join_path_str(dir, names[i].as_str());
        if let Some(c) = probe_path(fs, full.as_str()) {
            let ghost before = r@;
            r.push(c);
            assert(names_of(r@) =~= names_of(before).push(r@.last()@));
        }
        i = i + 1;
    }
    assert(nv.take(names@.len() as int) =~= nv);
    r
}

/// What directory `dir` contributes to a search (see `dir_hits`).
fn hits_in_dir<F: FileSystem>(
    fs: &F,
    cmd: &str,
    pattern: Option<&Pattern>,
    exts: Option<&Vec<String>>,
    dir: &str,
) -> (r: Vec<String>)
    ensures
        names_of(r@) == dir_hits(fs, cmd@, pattern_view(pattern), exts_view(exts), dir@),
{
    match pattern {
        None => {
            let cands = candidate_names(cmd, exts);
            probe_names(fs, dir, &cands)
        },
        Some(p) => match fs.read_dir(dir) {
            Some(names) => {
                let ghost nv = names_of(names@);
                let mut r: Vec<String> = Vec::new();
                let mut i: usize = 0;
                while i < names.len()
                    invariant
                        i <= names@.len(),
                        nv == names_of(names@),
                        names_of(r@) == named_hits(fs, dir@, p@, nv.take(i as int)),
                    decreases names.len() - i,
                {
                    assert(nv.take(i + 1).drop_last() =~= nv.take(i as int));
                    assert(nv.take(i + 1).last() == names@[i as int]@);
                    if p.is_match(names[i].as_str()) {
                        let full = join_path_str(dir, names[i].as_str());
                        if probe_path(fs, full.as_str()).is_some() {
                            let ghost before = r@;
                            r.push(full);
                            assert(names_of(r@) =~= names_of(before).push(r@.last()@));
                        }
                    }
                    i = i + 1;
                }
                assert(nv.take(names@.len() as int) =~= nv);
                r
            },
            None => {
                let r: Vec<String> = Vec::new();
                assert(names_of(r@) =~= Seq::<Seq<char>>::empty());
                r
            },
        },
    }
}

/// What each of `dirs` contributes to a search, worked out in parallel by
/// `rayon` (`par_iter().map(..).collect()` on a `Vec`). The closure only calls
/// `hits_in_dir`; the contract states that the collected vector holds its
/// answer for each directory, in the order of `dirs`, as rayon documents for
/// collecting an indexed parallel iterator.
#[verifier::external_body]
fn hits_in_dirs<F: FileSystem>(
    fs: &F,
    cmd: &str,
    pattern: Option<&Pattern>,
    exts: Option<&Vec<String>>,
    dirs: &Vec<String>,
) -> (r: Vec<Vec<String>>)
    ensures
        r@.len() == dirs@.len(),
        forall|i: int|
            0 <= i < dirs@.len() ==> names_of(#[trigger] r@[i]@) == dir_hits(
                fs,
                cmd@,
                pattern_view(pattern),
                exts_view(exts),
                dirs@[i]@,
            ),
{
    dirs.par_iter().map(|d| hits_in_dir(fs, cmd, pattern, exts, d.as_str())).collect()
}

/// Whether `s` is among `v`.
fn contains_string(v: &Vec<String>, s: &String) -> (r: bool)
    ensures
        r == names_of(v@).contains(s@),
{
    let mut i: usize = 0;
    while i < v.len()
        invariant
            i <= v@.len(),
            forall|j: int| 0 <= j < i ==> v@[j]@ != s@,
        decreases v.len() - i,
    {
        if v[i] == *s {
            assert(names_of(v@)[i as int] == s@);
            return true;
        }
        i = i + 1;
    }
    assert forall|j: int| 0 <= j < names_of(v@).len() implies names_of(v@)[j] != s@ by {
        assert(names_of(v@)[j] == v@[j]@);
    }
    false
}

/// Turns the hits of a search, in search order, into its answer: the
/// distinct hits formatted for output (only the first one unless `all` or
/// `-a` is set), or `NotFound` when there is no hit.
pub fn select_results(cmd: &str, hits: &Vec<String>, options: &Options) -> (r: Result<
    Vec<String>,
    WhichError,
>)
    ensures
        outcome_view(r) == select_spec(cmd@, names_of(hits@), options@, options.home_dir()),
{
    let ghost hv = names_of(hits@);
    let mut found: Vec<String> = Vec::new();
    let mut i: usize = 0;
    while i < hits.len()
        invariant
            i <= hits@.len(),
            hv == names_of(hits@),
            names_of(found@) == first_occurrences(hv.take(i as int)),
        decreases hits.len() - i,
    {
        assert(hv.take(i + 1).drop_last() =~= hv.take(i as int));
        assert(hv.take(i + 1).last() == hits@[i as int]@);
        if !contains_string(&found, &hits[i]) {
            let ghost before = found@;
            found.push(hits[i].clone());
            assert(names_of(found@) =~= names_of(before).push(hits@[i as int]@));
        }
        i = i + 1;
    }
    assert(hv.take(hits@.len() as int) =~= hv);
    if found.len() == 0 {
        return Err(WhichError::NotFound(cmd.to_owned()));
    }
    let need_all = {
        let keys = vec!["all", "-a"];
        assert(names_view(keys@) =~= seq!["all"@, "-a"@]);
        check_option(options, keys, true)
    };
    let ghost home = options.home_dir();
    let ghost fv = names_of(found@);
    if need_all {
        let mut out: Vec<String> = Vec::new();
        let mut j: usize = 0;
        while j < found.len()
            invariant
                j <= found@.len(),
                out@.len() == j,
                home == options.home_dir(),
                fv == names_of(found@),
                names_of(out@) == fv.take(j as int).map_values(
                    |p: Seq<char>| format_path(p, options@, home),
                ),
            decreases found.len() - j,
        {
            let shown = format_path_output(found[j].as_str(), options);
            assert(fv[j as int] == found@[j as int]@);
            assert(shown@ == format_path(fv[j as int], options@, home));
            let ghost before = out@;
            out.push(shown);
            proof {
                let want = fv.take(j + 1).map_values(|p: Seq<char>| format_path(p, options@, home));
                assert forall|k: int| 0 <= k < j + 1 implies #[trigger] names_of(out@)[k] == want[k] by {
                    if k < j {
                        assert(out@[k] == before[k]);
                        assert(names_of(before)[k] == fv.take(j as int).map_values(
                            |p: Seq<char>| format_path(p, options@, home),
                        )[k]);
                    } else {
                        assert(out@[k] == shown);
                        assert(fv.take(j + 1)[k] == fv[k]);
                    }
                }
                assert(names_of(out@) =~= want);
            }
            j = j + 1;
        }
        assert(fv.take(found@.len() as int) =~= fv);
        Ok(out)
    } else {
        let out = vec![format_path_output(found[0].as_str(), options)];
        assert(names_of(out@) =~= seq![format_path(fv[0], options@, home)]);
        Ok(out)
    }
}

/// Finds `cmd` in `fs`.
///
/// A command that contains `/` or `\` is a path: it is the answer, in
/// canonical form, when it is an executable file. Otherwise the entries of
/// `path_var` (separated by the platform's separator, `:` unless set
/// otherwise) are searched in order, leaving out empty entries and those the
/// `skip_dot` and `skip_tilde` switches exclude. In each directory the
/// command is looked for under its own name, or, where the platform names
/// executables with extensions, under its name followed by each extension in
/// turn, placed in the directory by Unix path rules (`join_path`); each
/// executable found is taken in canonical form. With the `regex`
/// switch the command is a pattern matched against the names in each
/// directory, and each matching executable entry is taken as its own path.
/// The answer lists the distinct hits in search order (only the first unless
/// `all` or `-a` is set), shown as `show_dot` and `show_tilde` ask.
pub fn which_all_fs<F: FileSystem>(cmd: &str, options: &Options, fs: &F, path_var: &str) -> (r:
    Result<Vec<String>, WhichError>)
    ensures
        outcome_view(r) == which_spec(
            fs,
            cmd@,
            options@,
            options.home_dir(),
            options.platform(),
            path_var@,
        ),
{
    let c = chars_of(cmd);
    if contains_char(&c, '/') || contains_char(&c, '\\') {
        if fs.is_file(cmd) {
            if fs.is_executable(cmd) {
                return match fs.canonicalize(cmd) {
                    Ok(p) => {
                        let r = vec![p];
                        assert(names_of(r@) =~= seq![r@[0]@]);
                        Ok(r)
                    },
                    Err(e) => Err(WhichError::Fs(e)),
                };
            }
            return Err(WhichError::NotExecutable(cmd.to_owned()));
        }
        return Err(WhichError::NotFound(cmd.to_owned()));
    }
    let use_regex = flag(options, "regex");
    let dirs = search_dirs_of(path_var, options);
    let compiled = if use_regex {
        match compile_pattern(cmd) {
            Ok(p) => Some(p),
            Err(reason) => {
                return Err(WhichError::InvalidPattern { pattern: cmd.to_owned(), reason });
            },
        }
    } else {
        None
    };
    let ghost pattern = if use_regex {
        Some(cmd@)
    } else {
        None
    };
    let exts = options.extensions();
    let ghost ev = options.platform().extensions;
    let ghost dv = names_of(dirs@);
    let per_dir = hits_in_dirs(fs, cmd, compiled.as_ref(), exts, &dirs);
    let mut hits: Vec<String> = Vec::new();
    let mut i: usize = 0;
    while i < per_dir.len()
        invariant
            i <= dirs@.len() == per_dir@.len(),
            dv == names_of(dirs@),
            forall|k: int|
                0 <= k < dirs@.len() ==> names_of(#[trigger] per_dir@[k]@) == dir_hits(
                    fs,
                    cmd@,
                    pattern,
                    ev,
                    dirs@[k]@,
                ),
            names_of(hits@) == all_hits(fs, cmd@, pattern, ev, dv.take(i as int)),
        decreases per_dir.len() - i,
    {
        assert(dv.take(i + 1).drop_last() =~= dv.take(i as int));
        assert(dv.take(i + 1).last() == dirs@[i as int]@);
        let ghost before = hits@;
        let mut more = per_dir[i].clone();
        assert(names_of(more@) == names_of(per_dir@[i as int]@)) by {
            assert(more@ =~= per_dir@[i as int]@);
        }
        hits.append(&mut more);
        assert(names_of(hits@) =~= names_of(before) + dir_hits(
            fs,
            cmd@,
            pattern,
            ev,
            dirs@[i as int]@,
        ));
        i = i + 1;
    }
    assert(dv.take(dirs@.len() as int) =~= dv);
    select_results(cmd, &hits, options)
}

/// The first answer of `which_all_fs`.
pub fn which_fs<F: FileSystem>(cmd: &str, options: &Options, fs: &F, path_var: &str) -> (r: Result<
    String,
    WhichError,
>)
    ensures
        match which_spec(fs, cmd@, options@, options.home_dir(), options.platform(), path_var@) {
            Ok(paths) => match r {
                Ok(p) => paths.len() > 0 && p@ == paths[0],
                Err(e) => paths.len() == 0 && e@ == Failure::NotFound(cmd@),
            },
            Err(f) => r matches Err(e) && e@ == f,
        },
{
    let paths = which_all_fs(cmd, options, fs, path_var)?;
    if paths.len() > 0 {
        let mut paths = paths;
        let first = paths.swap_remove(0);
        Ok(first)
    } else {
        Err(WhichError::NotFound(cmd.to_owned()))
    }
}

} // verus!
