//! Properties that hold of every search, stated over the models the
//! functions are specified with.
use vstd::prelude::*;
use crate::filesystem::{FileSystem, HostEntry, NativeFileSystem, VirtualFileSystem, normalize_path};
use crate::options::{Platform, option_matches};
use crate::pattern::regex_is_match;
use crate::search::{
    which_spec, wants_all, probe, named_hits, probed_hits, dir_hits, candidates, probe_paths,
    planned_paths, planned_dirs, join_path, wants_regex, flag_on, skips_dir, kept_dirs, search_dirs,
    all_hits, first_occurrences, format_path, has_separator,
};
use crate::text::{
    replace_char, split_on, lemma_split_on_nonempty, strip_leading, strip_trailing, trim, spaces, has_pair,
    pair_at,
};
use crate::filesystem::names_of;
use crate::report::{
    decimal, digit_char, xml_run, xml_step, xml_layout, XmlState, is_closing_tag,
    is_standalone_tag, result_lines, all_result_lines, WhichResult,
};

verus! {

/// `x` first occurs in `s` at position `k`.
pub open spec fn first_at(s: Seq<Seq<char>>, x: Seq<char>, k: int) -> bool {
    0 <= k < s.len() && s[k] == x && forall|m: int| 0 <= m < k ==> s[m] != x
}

/// Each element of `found` first occurs in `s`, and earlier elements first
/// occur earlier.
pub open spec fn in_first_occurrence_order(found: Seq<Seq<char>>, s: Seq<Seq<char>>) -> bool {
    forall|i: int, j: int| 0 <= i < j < found.len() ==> #[trigger] first_before(s, found[i], found[j])
}

/// `x` first occurs in `s` before `y` first occurs in it.
pub open spec fn first_before(s: Seq<Seq<char>>, x: Seq<char>, y: Seq<char>) -> bool {
    exists|ki: int, kj: int| ki < kj && #[trigger] first_at(s, x, ki) && #[trigger] first_at(s, y, kj)
}

/// An element of `s` has a first occurrence in it.
pub proof fn lemma_first_at_exists(s: Seq<Seq<char>>, x: Seq<char>)
    requires
        s.contains(x),
    ensures
        exists|k: int| #[trigger] first_at(s, x, k),
    decreases s.len(),
{
    let t = s.drop_last();
    if t.contains(x) {
        lemma_first_at_exists(t, x);
        let k = choose|k: int| #[trigger] first_at(t, x, k);
        assert(first_at(s, x, k)) by {
            assert forall|m: int| 0 <= m < k implies s[m] != x by {
                assert(s[m] == t[m]);
            }
        }
    } else {
        assert(first_at(s, x, s.len() - 1)) by {
            assert forall|m: int| 0 <= m < s.len() - 1 implies s[m] != x by {
                assert(s[m] == t[m]);
                if s[m] == x {
                    assert(t.contains(x));
                }
            }
        }
    }
}

/// Keeping first occurrences gives each element of `s` once, and nothing
/// else, ordered by where each first occurs in `s`.
pub proof fn lemma_first_occurrences(s: Seq<Seq<char>>)
    ensures
        first_occurrences(s).no_duplicates(),
        forall|x: Seq<char>| #[trigger] first_occurrences(s).contains(x) <==> s.contains(x),
        in_first_occurrence_order(first_occurrences(s), s),
    decreases s.len(),
{
    if s.len() > 0 {
        let t = s.drop_last();
        let x = s.last();
        assert(s =~= t.push(x));
        lemma_first_occurrences(t);
        let d = first_occurrences(t);
        assert forall|y: Seq<char>| s.contains(y) <==> (t.contains(y) || y == x) by {
            if s.contains(y) {
                let k = choose|k: int| 0 <= k < s.len() && s[k] == y;
                if k < s.len() - 1 {
                    assert(t[k] == y);
                }
            }
            if t.contains(y) {
                let k = choose|k: int| 0 <= k < t.len() && t[k] == y;
                assert(s[k] == y);
            }
            if y == x {
                assert(s[s.len() - 1] == y);
            }
        }
        // Where the elements of `t` first occur, they also first occur in `s`.
        assert forall|y: Seq<char>, k: int| first_at(t, y, k) implies #[trigger] first_at(s, y, k) by {
            assert(s[k] == t[k]);
            assert forall|m: int| 0 <= m < k implies s[m] != y by {
                assert(s[m] == t[m]);
            }
        }
        if d.contains(x) {
            assert(first_occurrences(s) == d);
            assert forall|y: Seq<char>| #[trigger] first_occurrences(s).contains(y) <==> s.contains(y) by {
            }
            assert forall|i: int, j: int| 0 <= i < j < d.len() implies #[trigger] first_before(s, d[i], d[j]) by {
                assert(first_before(t, d[i], d[j]));
                let (ki, kj) = choose|ki: int, kj: int|
                    ki < kj && #[trigger] first_at(t, d[i], ki) && #[trigger] first_at(t, d[j], kj);
                assert(first_at(s, d[i], ki) && first_at(s, d[j], kj));
            }
            assert(in_first_occurrence_order(d, s));
        } else {
            let f = d.push(x);
            assert(first_occurrences(s) == f);
            assert(!t.contains(x));
            assert forall|y: Seq<char>| #[trigger] f.contains(y) <==> s.contains(y) by {
                if f.contains(y) {
                    let k = choose|k: int| 0 <= k < f.len() && f[k] == y;
                    if k < d.len() {
                        assert(d[k] == y);
                        assert(d.contains(y));
                    }
                }
                if d.contains(y) {
                    let k = choose|k: int| 0 <= k < d.len() && d[k] == y;
                    assert(f[k] == y);
                }
                if y == x {
                    assert(f[d.len() as int] == y);
                }
            }
            assert(f.no_duplicates()) by {
                assert forall|i: int, j: int| 0 <= i < f.len() && 0 <= j < f.len() && i != j implies f[i] != f[j] by {
                    if i < d.len() && j < d.len() {
                        assert(f[i] == d[i] && f[j] == d[j]);
                    } else if i < d.len() {
                        assert(f[i] == d[i]);
                        assert(d.contains(d[i]));
                    } else if j < d.len() {
                        assert(f[j] == d[j]);
                        assert(d.contains(d[j]));
                    }
                }
            }
            assert(first_at(s, x, s.len() - 1)) by {
                assert forall|m: int| 0 <= m < s.len() - 1 implies s[m] != x by {
                    assert(s[m] == t[m]);
                    if s[m] == x {
                        assert(t.contains(x));
                    }
                }
            }
            assert forall|i: int, j: int| 0 <= i < j < f.len() implies #[trigger] first_before(s, f[i], f[j]) by {
                if j < d.len() {
                    assert(first_before(t, d[i], d[j]));
                    assert(f[i] == d[i] && f[j] == d[j]);
                    let (ki, kj) = choose|ki: int, kj: int|
                        ki < kj && #[trigger] first_at(t, d[i], ki) && #[trigger] first_at(t, d[j], kj);
                    assert(first_at(s, f[i], ki) && first_at(s, f[j], kj));
                } else {
                    assert(f[i] == d[i] && f[j] == x);
                    assert(d.contains(d[i]));
                    assert(t.contains(d[i]));
                    lemma_first_at_exists(t, d[i]);
                    let ki = choose|ki: int| #[trigger] first_at(t, d[i], ki);
                    assert(first_at(s, f[i], ki));
                    assert(ki < s.len() - 1);
                }
            }
            assert(in_first_occurrence_order(f, s));
        }
    }
}

/// A path named with a separator is checked on its own: neither the search
/// path, nor the switches, nor the home directory, nor the platform change
/// the answer.
pub proof fn lemma_direct_path_ignores_search_path<F: FileSystem>(
    fs: &F,
    cmd: Seq<char>,
    opts1: Map<Seq<char>, bool>,
    home1: Option<Seq<char>>,
    platform1: Platform,
    path_var1: Seq<char>,
    opts2: Map<Seq<char>, bool>,
    home2: Option<Seq<char>>,
    platform2: Platform,
    path_var2: Seq<char>,
)
    requires
        has_separator(cmd),
    ensures
        which_spec(fs, cmd, opts1, home1, platform1, path_var1) == which_spec(
            fs,
            cmd,
            opts2,
            home2,
            platform2,
            path_var2,
        ),
{
}

/// Switches read the same in two option maps that agree on them.
proof fn lemma_kept_dirs_same(
    pieces: Seq<Seq<char>>,
    o1: Map<Seq<char>, bool>,
    o2: Map<Seq<char>, bool>,
)
    requires
        flag_on(o1, "skip_dot"@) == flag_on(o2, "skip_dot"@),
        flag_on(o1, "skip_tilde"@) == flag_on(o2, "skip_tilde"@),
    ensures
        kept_dirs(pieces, o1) == kept_dirs(pieces, o2),
    decreases pieces.len(),
{
    if pieces.len() > 0 {
        lemma_kept_dirs_same(pieces.drop_last(), o1, o2);
        assert(skips_dir(pieces.last(), o1) == skips_dir(pieces.last(), o2));
    }
}

/// Setting `all` leaves the other switches as they were.
proof fn lemma_all_leaves_other_switches(opts: Map<Seq<char>, bool>, name: Seq<char>)
    requires
        name != "all"@,
    ensures
        flag_on(opts.insert("all"@, true), name) == flag_on(opts, name),
{
    reveal_with_fuel(option_matches, 2);
    let o2 = opts.insert("all"@, true);
    assert(o2.contains_key(name) == opts.contains_key(name));
    if opts.contains_key(name) {
        assert(o2[name] == opts[name]);
    }
    assert(seq![name].drop_first() =~= Seq::<Seq<char>>::empty());
}

/// Without `all` a search answers with the first path that the same search
/// with `all` lists, and fails exactly as it does.
pub proof fn lemma_first_match_leads_all_matches<F: FileSystem>(
    fs: &F,
    cmd: Seq<char>,
    opts: Map<Seq<char>, bool>,
    home: Option<Seq<char>>,
    platform: Platform,
    path_var: Seq<char>,
)
    requires
        !wants_all(opts),
    ensures
        ({
            let all = opts.insert("all"@, true);
            match (
                which_spec(fs, cmd, opts, home, platform, path_var),
                which_spec(fs, cmd, all, home, platform, path_var),
            ) {
                (Ok(first), Ok(every)) => every.len() > 0 && first == seq![every[0]],
                (Err(a), Err(b)) => a == b,
                _ => false,
            }
        }),
{
    let all = opts.insert("all"@, true);
    reveal_strlit("all");
    reveal_strlit("-a");
    reveal_strlit("regex");
    reveal_strlit("skip_dot");
    reveal_strlit("skip_tilde");
    reveal_strlit("show_dot");
    reveal_strlit("show_tilde");
    assert(wants_all(all));
    assert("regex"@.len() == 5 && "skip_dot"@.len() == 8 && "skip_tilde"@.len() == 10);
    assert("show_dot"@.len() == 8 && "show_tilde"@.len() == 10 && "all"@.len() == 3);
    lemma_all_leaves_other_switches(opts, "regex"@);
    lemma_all_leaves_other_switches(opts, "skip_dot"@);
    lemma_all_leaves_other_switches(opts, "skip_tilde"@);
    lemma_all_leaves_other_switches(opts, "show_dot"@);
    lemma_all_leaves_other_switches(opts, "show_tilde"@);
    lemma_kept_dirs_same(split_on(path_var, platform.separator), opts, all);
    assert(search_dirs(path_var, opts, platform.separator) == search_dirs(
        path_var,
        all,
        platform.separator,
    ));
    assert forall|p: Seq<char>| format_path(p, all, home) == format_path(p, opts, home) by {}
}

/// With `all` and without `show_tilde`, a successful search lists each
/// executable it found exactly once, nothing it did not find, and in the
/// order of the search path.
pub proof fn lemma_all_matches_distinct_and_complete<F: FileSystem>(
    fs: &F,
    cmd: Seq<char>,
    opts: Map<Seq<char>, bool>,
    home: Option<Seq<char>>,
    platform: Platform,
    path_var: Seq<char>,
)
    requires
        !has_separator(cmd),
        wants_all(opts),
        !flag_on(opts, "show_tilde"@),
    ensures
        ({
            let pattern = if wants_regex(opts) {
                Some(cmd)
            } else {
                None
            };
            let hits = all_hits(
                fs,
                cmd,
                pattern,
                platform.extensions,
                search_dirs(path_var, opts, platform.separator),
            );
            which_spec(fs, cmd, opts, home, platform, path_var) matches Ok(paths) ==> {
                &&& paths.no_duplicates()
                &&& forall|p: Seq<char>| #[trigger] paths.contains(p) <==> hits.contains(p)
                &&& in_first_occurrence_order(paths, hits)
            }
        }),
{
    let pattern = if wants_regex(opts) {
        Some(cmd)
    } else {
        None
    };
    let hits = all_hits(
        fs,
        cmd,
        pattern,
        platform.extensions,
        search_dirs(path_var, opts, platform.separator),
    );
    let found = first_occurrences(hits);
    lemma_first_occurrences(hits);
    assert forall|p: Seq<char>| format_path(p, opts, home) == p by {}
    assert(found.map_values(|p: Seq<char>| format_path(p, opts, home)) =~= found);
}

/// A file added to a virtual file system under an absolute path is then
/// found there: it exists, is a file, reads back the executable flag it was
/// added with, and is its own canonical form.
pub proof fn lemma_added_file_reads_back(
    before: VirtualFileSystem,
    after: VirtualFileSystem,
    path: Seq<char>,
    executable: bool,
)
    requires
        after@ == before@.insert(replace_char(path, '\\', '/'), executable),
        after.cwd() == before.cwd(),
        path.len() > 0 && path[0] == '/',
    ensures
        after.fs_exists(path),
        after.fs_is_file(path),
        after.fs_is_executable(path) == executable,
        after.fs_canonicalize(path) == Ok::<Seq<char>, Seq<char>>(replace_char(path, '\\', '/')),
{
    assert(normalize_path(after.cwd(), path) == replace_char(path, '\\', '/'));
}


/// An answer recorded for a path is what the host file system model gives
/// back for it.
pub proof fn lemma_recorded_entry_reads_back(
    before: NativeFileSystem,
    after: NativeFileSystem,
    path: Seq<char>,
    entry: HostEntry,
)
    requires
        after.recorded() == before.recorded().insert(path, entry),
    ensures
        after.fs_exists(path) == entry.present,
        after.fs_is_file(path) == entry.is_file,
        after.fs_is_executable(path) == entry.is_executable,
        after.fs_canonicalize(path) == (match entry.canonical {
            Ok(c) => Ok::<Seq<char>, Seq<char>>(c@),
            Err(m) => Err::<Seq<char>, Seq<char>>(m@),
        }),
{
}

/// After the current directory is set to an absolute directory without back
/// slashes, a file added inside it is found by its name alone.
pub proof fn lemma_file_found_from_current_dir(vfs: VirtualFileSystem, name: Seq<char>)
    requires
        vfs.cwd().len() > 0 && vfs.cwd()[0] == '/',
        vfs.cwd().last() != '/',
        !vfs.cwd().contains('\\'),
        name.len() > 0 && name[0] != '/',
        !name.contains('\\'),
        vfs@.contains_key(vfs.cwd() + seq!['/'] + name),
    ensures
        vfs.fs_exists(name),
        vfs.fs_canonicalize(name) == Ok::<Seq<char>, Seq<char>>(vfs.cwd() + seq!['/'] + name),
{
    let cwd = vfs.cwd();
    assert(replace_char(name, '\\', '/') =~= name) by {
        assert forall|i: int| 0 <= i < name.len() implies name[i] != '\\' by {
            if name[i] == '\\' {
                assert(name.contains('\\'));
            }
        }
    }
    assert(strip_trailing(cwd, '/') == cwd);
    assert(strip_leading(name, '/') == name);
    assert(normalize_path(cwd, name) =~= cwd + seq!['/'] + name);
}


/// `p` is the canonical form of some path of `fs` that is a regular file
/// and is executable.
pub open spec fn executable_form<F: FileSystem>(fs: &F, p: Seq<char>) -> bool {
    exists|q: Seq<char>|
        fs.fs_is_file(q) && fs.fs_is_executable(q) && #[trigger] fs.fs_canonicalize(q) == Ok::<
            Seq<char>,
            Seq<char>,
        >(p)
}

/// `p` is a regular file of `fs` that is executable and has a canonical form.
pub open spec fn executable_file<F: FileSystem>(fs: &F, p: Seq<char>) -> bool {
    fs.fs_is_file(p) && fs.fs_is_executable(p) && fs.fs_canonicalize(p) is Ok
}

proof fn lemma_probed_hits_executable<F: FileSystem>(fs: &F, dir: Seq<char>, names: Seq<Seq<char>>)
    ensures
        forall|p: Seq<char>| #[trigger] probed_hits(fs, dir, names).contains(p) ==> executable_form(fs, p),
    decreases names.len(),
{
    if names.len() > 0 {
        lemma_probed_hits_executable(fs, dir, names.drop_last());
        let before = probed_hits(fs, dir, names.drop_last());
        assert forall|p: Seq<char>| #[trigger] probed_hits(fs, dir, names).contains(p) implies executable_form(fs, p) by {
            let all = probed_hits(fs, dir, names);
            if all != before {
                let q = join_path(dir, names.last());
                let c = probe(fs, q)->0;
                assert(all == before.push(c));
                let k = choose|k: int| 0 <= k < all.len() && all[k] == p;
                if k < before.len() {
                    assert(before[k] == p);
                    assert(before.contains(p));
                } else {
                    assert(probe(fs, q) == Some(p));
                    assert(fs.fs_is_file(q) && fs.fs_is_executable(q) && fs.fs_canonicalize(q)
                        == Ok::<Seq<char>, Seq<char>>(p));
                }
            }
        }
    }
}

proof fn lemma_all_hits_executable<F: FileSystem>(
    fs: &F,
    cmd: Seq<char>,
    exts: Option<Seq<Seq<char>>>,
    dirs: Seq<Seq<char>>,
)
    ensures
        forall|p: Seq<char>| #[trigger] all_hits(fs, cmd, None, exts, dirs).contains(p) ==> executable_form(fs, p),
    decreases dirs.len(),
{
    if dirs.len() > 0 {
        let d = dirs.last();
        lemma_all_hits_executable(fs, cmd, exts, dirs.drop_last());
        let before = all_hits(fs, cmd, None, exts, dirs.drop_last());
        let here = dir_hits(fs, cmd, None, exts, d);
        lemma_probed_hits_executable(fs, d, candidates(cmd, exts));
        assert forall|p: Seq<char>| #[trigger] all_hits(fs, cmd, None, exts, dirs).contains(p) implies executable_form(fs, p) by {
            let all = all_hits(fs, cmd, None, exts, dirs);
            assert(all == before + here);
            let k = choose|k: int| 0 <= k < all.len() && all[k] == p;
            if k < before.len() {
                assert(before[k] == p);
                assert(before.contains(p));
            } else {
                assert(here[k - before.len()] == p);
                assert(here.contains(p));
            }
        }
    }
}

/// Without `show_tilde`, and unless the command is a pattern over file
/// names, every path a successful search answers with is the canonical form
/// of an executable file: a file that is not executable is never reported.
pub proof fn lemma_results_are_executables<F: FileSystem>(
    fs: &F,
    cmd: Seq<char>,
    opts: Map<Seq<char>, bool>,
    home: Option<Seq<char>>,
    platform: Platform,
    path_var: Seq<char>,
)
    requires
        !flag_on(opts, "show_tilde"@),
        has_separator(cmd) || !wants_regex(opts),
    ensures
        which_spec(fs, cmd, opts, home, platform, path_var) matches Ok(paths) ==> forall|p: Seq<char>|
            #[trigger] paths.contains(p) ==> executable_form(fs, p),
{
    if has_separator(cmd) {
        if let Ok(paths) = which_spec(fs, cmd, opts, home, platform, path_var) {
            assert(probe(fs, cmd) == Some(paths[0]));
            assert forall|p: Seq<char>| #[trigger] paths.contains(p) implies executable_form(fs, p) by {
                assert(paths.len() == 1);
                assert(paths[0] == p);
                assert(fs.fs_is_file(cmd) && fs.fs_is_executable(cmd) && fs.fs_canonicalize(cmd)
                    == Ok::<Seq<char>, Seq<char>>(p));
            }
        }
    } else {
        let dirs = search_dirs(path_var, opts, platform.separator);
        let hits = all_hits(fs, cmd, None, platform.extensions, dirs);
        lemma_all_hits_executable(fs, cmd, platform.extensions, dirs);
        lemma_first_occurrences(hits);
        let found = first_occurrences(hits);
        assert forall|p: Seq<char>| format_path(p, opts, home) == p by {}
        if let Ok(paths) = which_spec(fs, cmd, opts, home, platform, path_var) {
            assert forall|p: Seq<char>| #[trigger] paths.contains(p) implies executable_form(fs, p) by {
                let k = choose|k: int| 0 <= k < paths.len() && paths[k] == p;
                if wants_all(opts) {
                    assert(paths[k] == found[k]);
                } else {
                    assert(paths[k] == found[0]);
                    assert(found.contains(found[0]));
                }
                assert(found.contains(p));
                assert(hits.contains(p));
            }
        }
    }
}

/// `p` is the path in one of `dirs` of an entry listed there whose name
/// matches `pattern` and that is an executable file.
pub open spec fn matching_entry<F: FileSystem>(
    fs: &F,
    dirs: Seq<Seq<char>>,
    pattern: Seq<char>,
    p: Seq<char>,
) -> bool {
    exists|d: Seq<char>, n: Seq<char>|
        #![trigger dirs.contains(d), join_path(d, n)]
        {
            &&& dirs.contains(d)
            &&& fs.fs_read_dir(d) is Some
            &&& fs.fs_read_dir(d)->0.contains(n)
            &&& regex_is_match(pattern, n)
            &&& p == join_path(d, n)
            &&& executable_file(fs, p)
        }
}

proof fn lemma_named_hits_match<F: FileSystem>(
    fs: &F,
    dir: Seq<char>,
    pattern: Seq<char>,
    names: Seq<Seq<char>>,
)
    ensures
        forall|p: Seq<char>| #[trigger] named_hits(fs, dir, pattern, names).contains(p) ==> exists|n: Seq<char>|
            #[trigger] names.contains(n) && regex_is_match(pattern, n) && p == join_path(dir, n)
                && executable_file(fs, p),
    decreases names.len(),
{
    if names.len() > 0 {
        let t = names.drop_last();
        lemma_named_hits_match(fs, dir, pattern, t);
        let before = named_hits(fs, dir, pattern, t);
        let all = named_hits(fs, dir, pattern, names);
        assert forall|p: Seq<char>| #[trigger] all.contains(p) implies exists|n: Seq<char>|
            #[trigger] names.contains(n) && regex_is_match(pattern, n) && p == join_path(dir, n)
                && executable_file(fs, p) by {
            let k = choose|k: int| 0 <= k < all.len() && all[k] == p;
            if k < before.len() {
                assert(before[k] == p);
                assert(before.contains(p));
                let n = choose|n: Seq<char>|
                    #[trigger] t.contains(n) && regex_is_match(pattern, n) && p == join_path(dir, n)
                        && executable_file(fs, p);
                let j = choose|j: int| 0 <= j < t.len() && t[j] == n;
                assert(names[j] == n);
                assert(names.contains(n));
            } else {
                let n = names.last();
                assert(names[names.len() - 1] == n);
                assert(names.contains(n));
                assert(p == join_path(dir, n));
            }
        }
    }
}

proof fn lemma_all_hits_match<F: FileSystem>(
    fs: &F,
    cmd: Seq<char>,
    pattern: Seq<char>,
    exts: Option<Seq<Seq<char>>>,
    dirs: Seq<Seq<char>>,
)
    ensures
        forall|p: Seq<char>| #[trigger] all_hits(fs, cmd, Some(pattern), exts, dirs).contains(p)
            ==> matching_entry(fs, dirs, pattern, p),
    decreases dirs.len(),
{
    if dirs.len() > 0 {
        let t = dirs.drop_last();
        let d = dirs.last();
        lemma_all_hits_match(fs, cmd, pattern, exts, t);
        let before = all_hits(fs, cmd, Some(pattern), exts, t);
        let here = dir_hits(fs, cmd, Some(pattern), exts, d);
        let all = all_hits(fs, cmd, Some(pattern), exts, dirs);
        assert(all == before + here);
        assert(dirs[dirs.len() - 1] == d);
        assert forall|p: Seq<char>| #[trigger] all.contains(p) implies matching_entry(fs, dirs, pattern, p) by {
            let k = choose|k: int| 0 <= k < all.len() && all[k] == p;
            if k < before.len() {
                assert(before[k] == p);
                assert(before.contains(p));
                assert(matching_entry(fs, t, pattern, p));
                let (e, n) = choose|e: Seq<char>, n: Seq<char>|
                    #![trigger t.contains(e), join_path(e, n)]
                    {
                        &&& t.contains(e)
                        &&& fs.fs_read_dir(e) is Some
                        &&& fs.fs_read_dir(e)->0.contains(n)
                        &&& regex_is_match(pattern, n)
                        &&& p == join_path(e, n)
                        &&& executable_file(fs, p)
                    };
                let j = choose|j: int| 0 <= j < t.len() && t[j] == e;
                assert(dirs[j] == e);
                assert(dirs.contains(e));
            } else {
                assert(here[k - before.len()] == p);
                assert(here.contains(p));
                let names = fs.fs_read_dir(d)->0;
                lemma_named_hits_match(fs, d, pattern, names);
                let n = choose|n: Seq<char>|
                    #[trigger] names.contains(n) && regex_is_match(pattern, n) && p == join_path(d, n)
                        && executable_file(fs, p);
                assert(dirs.contains(d));
            }
        }
    }
}

/// With `regex` and without `show_tilde`, every path a successful search for
/// a pattern answers with is an entry listed in one of the searched
/// directories, whose name matches the pattern and which is an executable
/// file, given as its path in that directory.
pub proof fn lemma_regex_results_match<F: FileSystem>(
    fs: &F,
    cmd: Seq<char>,
    opts: Map<Seq<char>, bool>,
    home: Option<Seq<char>>,
    platform: Platform,
    path_var: Seq<char>,
)
    requires
        !has_separator(cmd),
        wants_regex(opts),
        !flag_on(opts, "show_tilde"@),
    ensures
        which_spec(fs, cmd, opts, home, platform, path_var) matches Ok(paths) ==> forall|p: Seq<char>|
            #[trigger] paths.contains(p) ==> matching_entry(
                fs,
                search_dirs(path_var, opts, platform.separator),
                cmd,
                p,
            ),
{
    let dirs = search_dirs(path_var, opts, platform.separator);
    let hits = all_hits(fs, cmd, Some(cmd), platform.extensions, dirs);
    lemma_all_hits_match(fs, cmd, cmd, platform.extensions, dirs);
    lemma_first_occurrences(hits);
    let found = first_occurrences(hits);
    assert forall|p: Seq<char>| format_path(p, opts, home) == p by {}
    if let Ok(paths) = which_spec(fs, cmd, opts, home, platform, path_var) {
        assert forall|p: Seq<char>| #[trigger] paths.contains(p) implies matching_entry(fs, dirs, cmd, p) by {
            let k = choose|k: int| 0 <= k < paths.len() && paths[k] == p;
            if wants_all(opts) {
                assert(paths[k] == found[k]);
            } else {
                assert(paths[k] == found[0]);
                assert(found.contains(found[0]));
            }
            assert(found.contains(p));
            assert(hits.contains(p));
        }
    }
}

/// Two file systems give the same file facts about `p`.
pub open spec fn agree_at<F1: FileSystem, F2: FileSystem>(fs1: &F1, fs2: &F2, p: Seq<char>) -> bool {
    &&& fs1.fs_is_file(p) == fs2.fs_is_file(p)
    &&& fs1.fs_is_executable(p) == fs2.fs_is_executable(p)
    &&& fs1.fs_canonicalize(p) == fs2.fs_canonicalize(p)
}

/// Two file systems list directory `d` alike and agree on each entry of it.
pub open spec fn agree_on_dir<F1: FileSystem, F2: FileSystem>(fs1: &F1, fs2: &F2, d: Seq<char>) -> bool {
    &&& fs1.fs_read_dir(d) == fs2.fs_read_dir(d)
    &&& fs1.fs_read_dir(d) matches Some(names) ==> forall|n: Seq<char>|
        #[trigger] names.contains(n) ==> agree_at(fs1, fs2, join_path(d, n))
}

proof fn lemma_probed_hits_agree<F1: FileSystem, F2: FileSystem>(
    fs1: &F1,
    fs2: &F2,
    dir: Seq<char>,
    names: Seq<Seq<char>>,
)
    requires
        forall|n: Seq<char>| #[trigger] names.contains(n) ==> agree_at(fs1, fs2, join_path(dir, n)),
    ensures
        probed_hits(fs1, dir, names) == probed_hits(fs2, dir, names),
    decreases names.len(),
{
    if names.len() > 0 {
        let t = names.drop_last();
        assert forall|n: Seq<char>| #[trigger] t.contains(n) implies agree_at(fs1, fs2, join_path(dir, n)) by {
            let k = choose|k: int| 0 <= k < t.len() && t[k] == n;
            assert(names[k] == n);
            assert(names.contains(n));
        }
        lemma_probed_hits_agree(fs1, fs2, dir, t);
        assert(names.contains(names.last())) by {
            assert(names[names.len() - 1] == names.last());
        }
    }
}

proof fn lemma_named_hits_agree<F1: FileSystem, F2: FileSystem>(
    fs1: &F1,
    fs2: &F2,
    dir: Seq<char>,
    pattern: Seq<char>,
    names: Seq<Seq<char>>,
)
    requires
        forall|n: Seq<char>| #[trigger] names.contains(n) ==> agree_at(fs1, fs2, join_path(dir, n)),
    ensures
        named_hits(fs1, dir, pattern, names) == named_hits(fs2, dir, pattern, names),
    decreases names.len(),
{
    if names.len() > 0 {
        let t = names.drop_last();
        assert forall|n: Seq<char>| #[trigger] t.contains(n) implies agree_at(fs1, fs2, join_path(dir, n)) by {
            let k = choose|k: int| 0 <= k < t.len() && t[k] == n;
            assert(names[k] == n);
            assert(names.contains(n));
        }
        lemma_named_hits_agree(fs1, fs2, dir, pattern, t);
        assert(names.contains(names.last())) by {
            assert(names[names.len() - 1] == names.last());
        }
    }
}

proof fn lemma_all_hits_agree<F1: FileSystem, F2: FileSystem>(
    fs1: &F1,
    fs2: &F2,
    cmd: Seq<char>,
    pattern: Option<Seq<char>>,
    exts: Option<Seq<Seq<char>>>,
    dirs: Seq<Seq<char>>,
)
    requires
        pattern is None ==> forall|d: Seq<char>, n: Seq<char>|
            #![trigger dirs.contains(d), candidates(cmd, exts).contains(n)]
            dirs.contains(d) && candidates(cmd, exts).contains(n) ==> agree_at(fs1, fs2, join_path(d, n)),
        pattern is Some ==> forall|d: Seq<char>| #[trigger] dirs.contains(d) ==> agree_on_dir(fs1, fs2, d),
    ensures
        all_hits(fs1, cmd, pattern, exts, dirs) == all_hits(fs2, cmd, pattern, exts, dirs),
    decreases dirs.len(),
{
    if dirs.len() > 0 {
        let t = dirs.drop_last();
        let d = dirs.last();
        assert(dirs.contains(d)) by {
            assert(dirs[dirs.len() - 1] == d);
        }
        assert forall|e: Seq<char>| #[trigger] t.contains(e) implies dirs.contains(e) by {
            let k = choose|k: int| 0 <= k < t.len() && t[k] == e;
            assert(dirs[k] == e);
        }
        lemma_all_hits_agree(fs1, fs2, cmd, pattern, exts, t);
        match pattern {
            None => {
                let cands = candidates(cmd, exts);
                assert forall|n: Seq<char>| #[trigger] cands.contains(n) implies agree_at(fs1, fs2, join_path(d, n)) by {
                    assert(dirs.contains(d) && cands.contains(n));
                }
                lemma_probed_hits_agree(fs1, fs2, d, cands);
            },
            Some(p) => {
                assert(agree_on_dir(fs1, fs2, d));
                match fs1.fs_read_dir(d) {
                    Some(names) => {
                        lemma_named_hits_agree(fs1, fs2, d, p, names);
                    },
                    None => {},
                }
            },
        }
    }
}

proof fn lemma_probe_paths_contains(
    dirs: Seq<Seq<char>>,
    names: Seq<Seq<char>>,
    d: Seq<char>,
    n: Seq<char>,
)
    requires
        dirs.contains(d),
        names.contains(n),
    ensures
        probe_paths(dirs, names).contains(join_path(d, n)),
    decreases dirs.len(),
{
    let t = dirs.drop_last();
    let prev = probe_paths(t, names);
    let here = names.map_values(|x: Seq<char>| join_path(dirs.last(), x));
    let all = probe_paths(dirs, names);
    assert(all == prev + here);
    if dirs.last() == d {
        let k = choose|k: int| 0 <= k < names.len() && names[k] == n;
        assert(here[k] == join_path(d, n));
        assert(all[prev.len() + k] == join_path(d, n));
    } else {
        let k = choose|k: int| 0 <= k < dirs.len() && dirs[k] == d;
        assert(k < dirs.len() - 1);
        assert(t[k] == d);
        lemma_probe_paths_contains(t, names, d, n);
        let j = choose|j: int| 0 <= j < prev.len() && prev[j] == join_path(d, n);
        assert(all[j] == prev[j]);
    }
}

/// A search only reads what `search_plan` names: two file systems that give
/// the same facts about the planned paths, and list the planned directories
/// alike with the same facts about their entries, give the same answer.
pub proof fn lemma_search_reads_only_planned<F1: FileSystem, F2: FileSystem>(
    fs1: &F1,
    fs2: &F2,
    cmd: Seq<char>,
    opts: Map<Seq<char>, bool>,
    home: Option<Seq<char>>,
    platform: Platform,
    path_var: Seq<char>,
)
    requires
        forall|p: Seq<char>| #[trigger] planned_paths(cmd, opts, platform, path_var).contains(p) ==> agree_at(fs1, fs2, p),
        forall|d: Seq<char>| #[trigger] planned_dirs(cmd, opts, platform, path_var).contains(d) ==> agree_on_dir(fs1, fs2, d),
    ensures
        which_spec(fs1, cmd, opts, home, platform, path_var) == which_spec(
            fs2,
            cmd,
            opts,
            home,
            platform,
            path_var,
        ),
{
    if has_separator(cmd) {
        assert(planned_paths(cmd, opts, platform, path_var)[0] == cmd);
        assert(planned_paths(cmd, opts, platform, path_var).contains(cmd));
    } else {
        let dirs = search_dirs(path_var, opts, platform.separator);
        let exts = platform.extensions;
        if wants_regex(opts) {
            assert forall|d: Seq<char>| #[trigger] dirs.contains(d) implies agree_on_dir(fs1, fs2, d) by {
                assert(planned_dirs(cmd, opts, platform, path_var).contains(d));
            }
            lemma_all_hits_agree(fs1, fs2, cmd, Some(cmd), exts, dirs);
        } else {
            let cands = candidates(cmd, exts);
            assert forall|d: Seq<char>, n: Seq<char>|
                #![trigger dirs.contains(d), cands.contains(n)]
                dirs.contains(d) && cands.contains(n) implies agree_at(fs1, fs2, join_path(d, n)) by {
                lemma_probe_paths_contains(dirs, cands, d, n);
                assert(planned_paths(cmd, opts, platform, path_var) == probe_paths(dirs, cands));
                assert(planned_paths(cmd, opts, platform, path_var).contains(join_path(d, n)));
            }
            lemma_all_hits_agree(fs1, fs2, cmd, None, exts, dirs);
        }
    }
}

/// The entries `ds` written as one search path, `sep` between each two.
pub open spec fn join_with(ds: Seq<Seq<char>>, sep: char) -> Seq<char>
    decreases ds.len(),
{
    if ds.len() == 0 {
        Seq::empty()
    } else if ds.len() == 1 {
        ds[0]
    } else {
        join_with(ds.drop_last(), sep) + seq![sep] + ds.last()
    }
}

/// Text without `sep` added after a string lengthens the last of its pieces.
proof fn lemma_split_append(a: Seq<char>, b: Seq<char>, sep: char)
    requires
        !b.contains(sep),
    ensures
        split_on(a + b, sep) == split_on(a, sep).update(
            split_on(a, sep).len() - 1,
            split_on(a, sep).last() + b,
        ),
    decreases b.len(),
{
    let s = split_on(a, sep);
    lemma_split_on_nonempty(a, sep);
    if b.len() == 0 {
        assert(a + b =~= a);
        assert(s.last() + b =~= s.last());
        assert(s.update(s.len() - 1, s.last() + b) =~= s);
    } else {
        let b0 = b.drop_last();
        assert(!b0.contains(sep)) by {
            if b0.contains(sep) {
                let k = choose|k: int| 0 <= k < b0.len() && b0[k] == sep;
                assert(b[k] == sep);
            }
        }
        assert(b.last() != sep) by {
            assert(b[b.len() - 1] == b.last());
        }
        lemma_split_append(a, b0, sep);
        assert((a + b).drop_last() =~= a + b0);
        assert((a + b).last() == b.last());
        let prev = split_on(a + b0, sep);
        assert(prev.last() == s.last() + b0);
        assert(prev.last().push(b.last()) =~= s.last() + b);
        assert(prev.update(prev.len() - 1, prev.last().push(b.last())) =~= s.update(
            s.len() - 1,
            s.last() + b,
        ));
    }
}

/// Splitting the joined entries gives the entries back, when none holds the
/// separator.
proof fn lemma_split_join(ds: Seq<Seq<char>>, sep: char)
    requires
        ds.len() >= 1,
        forall|i: int| 0 <= i < ds.len() ==> !(#[trigger] ds[i]).contains(sep),
    ensures
        split_on(join_with(ds, sep), sep) == ds,
    decreases ds.len(),
{
    let e = Seq::<char>::empty();
    if ds.len() == 1 {
        lemma_split_append(e, ds[0], sep);
        assert(e + ds[0] =~= ds[0]);
        assert(split_on(e, sep) == seq![e]);
        assert(seq![e].update(0, e + ds[0]) =~= ds);
    } else {
        let t = ds.drop_last();
        assert forall|i: int| 0 <= i < t.len() implies !(#[trigger] t[i]).contains(sep) by {
            assert(t[i] == ds[i]);
        }
        lemma_split_join(t, sep);
        let j = join_with(t, sep);
        let js = j + seq![sep];
        assert(js.drop_last() =~= j);
        assert(split_on(js, sep) == t.push(e));
        assert(!ds.last().contains(sep)) by {
            assert(ds[ds.len() - 1] == ds.last());
        }
        lemma_split_append(js, ds.last(), sep);
        assert(t.push(e).update(t.len() as int, e + ds.last()) =~= ds);
    }
}

/// No piece of a split holds the separator.
proof fn lemma_split_pieces(s: Seq<char>, sep: char)
    ensures
        forall|i: int| 0 <= i < split_on(s, sep).len() ==> !(#[trigger] split_on(s, sep)[i]).contains(sep),
    decreases s.len(),
{
    if s.len() > 0 {
        let t = s.drop_last();
        lemma_split_pieces(t, sep);
        lemma_split_on_nonempty(t, sep);
        let prev = split_on(t, sep);
        let cur = split_on(s, sep);
        if s.last() != sep {
            let l = prev.last().push(s.last());
            assert(!l.contains(sep)) by {
                assert(!prev[prev.len() - 1].contains(sep));
                if l.contains(sep) {
                    let k = choose|k: int| 0 <= k < l.len() && l[k] == sep;
                    if k < prev.last().len() {
                        assert(prev.last()[k] == sep);
                        assert(prev.last().contains(sep));
                    }
                }
            }
            assert forall|i: int| 0 <= i < cur.len() implies !(#[trigger] cur[i]).contains(sep) by {
                if i < prev.len() - 1 {
                    assert(cur[i] == prev[i]);
                }
            }
        } else {
            assert forall|i: int| 0 <= i < cur.len() implies !(#[trigger] cur[i]).contains(sep) by {
                if i < prev.len() {
                    assert(cur[i] == prev[i]);
                }
            }
        }
    }
}

/// What `kept_dirs` keeps is among the pieces, non-empty and not skipped.
proof fn lemma_kept_from_pieces(pieces: Seq<Seq<char>>, opts: Map<Seq<char>, bool>)
    ensures
        forall|d: Seq<char>| #[trigger] kept_dirs(pieces, opts).contains(d) ==> pieces.contains(d)
            && d.len() > 0 && !skips_dir(d, opts),
    decreases pieces.len(),
{
    if pieces.len() > 0 {
        let t = pieces.drop_last();
        lemma_kept_from_pieces(t, opts);
        let before = kept_dirs(t, opts);
        let all = kept_dirs(pieces, opts);
        assert forall|d: Seq<char>| #[trigger] all.contains(d) implies pieces.contains(d) && d.len() > 0
            && !skips_dir(d, opts) by {
            let k = choose|k: int| 0 <= k < all.len() && all[k] == d;
            if k < before.len() {
                assert(before[k] == d);
                assert(before.contains(d));
                let j = choose|j: int| 0 <= j < t.len() && t[j] == d;
                assert(pieces[j] == d);
            } else {
                assert(pieces[pieces.len() - 1] == d);
            }
        }
    }
}

/// Entries that are all non-empty and not skipped are kept as they are.
proof fn lemma_kept_all(ds: Seq<Seq<char>>, opts: Map<Seq<char>, bool>)
    requires
        forall|i: int| 0 <= i < ds.len() ==> (#[trigger] ds[i]).len() > 0 && !skips_dir(ds[i], opts),
    ensures
        kept_dirs(ds, opts) == ds,
    decreases ds.len(),
{
    if ds.len() > 0 {
        let t = ds.drop_last();
        assert forall|i: int| 0 <= i < t.len() implies (#[trigger] t[i]).len() > 0 && !skips_dir(t[i], opts) by {
            assert(t[i] == ds[i]);
        }
        lemma_kept_all(t, opts);
        assert(ds[ds.len() - 1] == ds.last());
        assert(t.push(ds.last()) =~= ds);
    }
}

/// Leaving the empty entries, and those that `skip_dot` or `skip_tilde`
/// exclude, out of a search path and joining the rest again with the
/// separator changes no answer: such entries contribute nothing, and the
/// others keep their order.
pub proof fn lemma_filtered_search_path_same_answer<F: FileSystem>(
    fs: &F,
    cmd: Seq<char>,
    opts: Map<Seq<char>, bool>,
    home: Option<Seq<char>>,
    platform: Platform,
    path_var: Seq<char>,
)
    ensures
        which_spec(fs, cmd, opts, home, platform, path_var) == which_spec(
            fs,
            cmd,
            opts,
            home,
            platform,
            join_with(search_dirs(path_var, opts, platform.separator), platform.separator),
        ),
{
    let sep = platform.separator;
    let pieces = split_on(path_var, sep);
    let k = search_dirs(path_var, opts, sep);
    let j = join_with(k, sep);
    lemma_split_pieces(path_var, sep);
    lemma_kept_from_pieces(pieces, opts);
    if k.len() == 0 {
        let e = Seq::<char>::empty();
        assert(j == e);
        assert(split_on(j, sep) == seq![e]);
        assert(seq![e].drop_last() =~= Seq::<Seq<char>>::empty());
        assert(seq![e].last() == e);
        assert(kept_dirs(Seq::<Seq<char>>::empty(), opts) =~= Seq::<Seq<char>>::empty());
        assert(kept_dirs(seq![e], opts) =~= Seq::<Seq<char>>::empty());
        assert(search_dirs(j, opts, sep) =~= k);
    } else {
        assert forall|i: int| 0 <= i < k.len() implies !(#[trigger] k[i]).contains(sep) && k[i].len() > 0
            && !skips_dir(k[i], opts) by {
            assert(k.contains(k[i]));
            assert(pieces.contains(k[i]));
            let m = choose|m: int| 0 <= m < pieces.len() && pieces[m] == k[i];
            assert(!pieces[m].contains(sep));
        }
        lemma_split_join(k, sep);
        lemma_kept_all(k, opts);
    }
    assert(search_dirs(j, opts, sep) == k);
}

/// Only non-empty entries are kept when no entry is skipped.
proof fn lemma_kept_dirs_nonempty(pieces: Seq<Seq<char>>, opts: Map<Seq<char>, bool>)
    requires
        forall|d: Seq<char>| !#[trigger] skips_dir(d, opts),
    ensures
        kept_dirs(pieces, opts) == pieces.filter(|d: Seq<char>| d.len() > 0),
    decreases pieces.len(),
{
    reveal(Seq::filter);
    if pieces.len() > 0 {
        lemma_kept_dirs_nonempty(pieces.drop_last(), opts);
        assert(!skips_dir(pieces.last(), opts));
    }
}

/// With neither `skip_dot` nor `skip_tilde` set to `true`, no search path
/// entry is skipped: every non-empty entry is searched, in the order of the
/// search path.
pub proof fn lemma_no_skip_switch_keeps_every_entry(
    path_var: Seq<char>,
    opts: Map<Seq<char>, bool>,
    sep: char,
)
    requires
        !flag_on(opts, "skip_dot"@),
        !flag_on(opts, "skip_tilde"@),
    ensures
        forall|d: Seq<char>| !#[trigger] skips_dir(d, opts),
        search_dirs(path_var, opts, sep) == split_on(path_var, sep).filter(|d: Seq<char>| d.len() > 0),
{
    lemma_kept_dirs_nonempty(split_on(path_var, sep), opts);
}

/// The value of a decimal digit.
pub open spec fn digit_value(c: char) -> int {
    (c as int) - ('0' as int)
}

/// The number that the digits `s` stand for in base ten.
pub open spec fn numeral_value(s: Seq<char>) -> int
    decreases s.len(),
{
    if s.len() == 0 {
        0
    } else {
        numeral_value(s.drop_last()) * 10 + digit_value(s.last())
    }
}

/// `decimal(n)` is the base-ten numeral of `n`: one or more digits, no
/// leading zero unless `n` is zero, and the digits read in base ten give `n`.
pub proof fn lemma_decimal_is_numeral(n: nat)
    ensures
        decimal(n).len() > 0,
        forall|i: int| 0 <= i < decimal(n).len() ==> ('0' as int) <= (#[trigger] decimal(n)[i] as int)
            <= ('9' as int),
        decimal(n)[0] == '0' ==> n == 0,
        numeral_value(decimal(n)) == n,
    decreases n,
{
    if n < 10 {
        let s = decimal(n);
        assert(s.drop_last() =~= Seq::<char>::empty());
        assert(s.last() == digit_char(n as int));
        assert(numeral_value(s.drop_last()) == 0);
        assert(digit_value(digit_char(n as int)) == n);
        assert(numeral_value(s) == numeral_value(s.drop_last()) * 10 + digit_value(s.last()));
    } else {
        let q = n / 10;
        let r = n % 10;
        lemma_decimal_is_numeral(q);
        let s = decimal(n);
        let c = digit_char(r as int);
        assert(s == decimal(q) + seq![c]);
        assert(s.drop_last() =~= decimal(q));
        assert(s.last() == c);
        assert(digit_value(c) == r);
        vstd::arithmetic::div_mod::lemma_fundamental_div_mod(n as int, 10);
        assert(numeral_value(s) == numeral_value(s.drop_last()) * 10 + digit_value(s.last()));
        assert(numeral_value(s) == q * 10 + r);
        assert(q > 0);
        assert(s[0] == decimal(q)[0]);
        assert forall|i: int| 0 <= i < s.len() implies ('0' as int) <= (#[trigger] s[i] as int) <= ('9' as int) by {
            if i < decimal(q).len() {
                assert(s[i] == decimal(q)[i]);
            }
        }
    }
}

/// The characters of an element `<name>x</name>`.
pub open spec fn text_element(name: Seq<char>, x: Seq<char>) -> Seq<char> {
    seq!['<'] + name + seq!['>'] + x + seq!['<', '/'] + name + seq!['>']
}

/// A name that can stand in an opening and a closing tag: not empty, without
/// `<`, `>` or `/`, and not starting with `?`.
pub open spec fn plain_tag_name(name: Seq<char>) -> bool {
    &&& name.len() > 0
    &&& !name.contains('<')
    &&& !name.contains('>')
    &&& !name.contains('/')
    &&& name[0] != '?'
}

/// While no tag is being read, text without `<` only adds to the pending text.
proof fn lemma_run_text(pre: Seq<char>, x: Seq<char>, base: nat)
    requires
        !xml_run(pre, base).in_tag,
        !x.contains('<'),
    ensures
        xml_run(pre + x, base) == (XmlState { text: xml_run(pre, base).text + x, ..xml_run(pre, base) }),
    decreases x.len(),
{
    let st = xml_run(pre, base);
    if x.len() == 0 {
        assert(pre + x =~= pre);
        assert(st.text + x =~= st.text);
    } else {
        let x0 = x.drop_last();
        assert(!x0.contains('<')) by {
            if x0.contains('<') {
                let k = choose|k: int| 0 <= k < x0.len() && x0[k] == '<';
                assert(x[k] == '<');
            }
        }
        assert(x.last() != '<') by {
            assert(x[x.len() - 1] == x.last());
        }
        lemma_run_text(pre, x0, base);
        assert((pre + x).drop_last() =~= pre + x0);
        assert((pre + x).last() == x.last());
        assert((st.text + x0).push(x.last()) =~= st.text + x);
    }
}

/// While a tag is being read, characters other than `>` only add to it.
proof fn lemma_run_tag(pre: Seq<char>, y: Seq<char>, base: nat)
    requires
        xml_run(pre, base).in_tag,
        !y.contains('>'),
    ensures
        xml_run(pre + y, base) == (XmlState { tag: xml_run(pre, base).tag + y, ..xml_run(pre, base) }),
    decreases y.len(),
{
    let st = xml_run(pre, base);
    if y.len() == 0 {
        assert(pre + y =~= pre);
        assert(st.tag + y =~= st.tag);
    } else {
        let y0 = y.drop_last();
        assert(!y0.contains('>')) by {
            if y0.contains('>') {
                let k = choose|k: int| 0 <= k < y0.len() && y0[k] == '>';
                assert(y[k] == '>');
            }
        }
        assert(y.last() != '>') by {
            assert(y[y.len() - 1] == y.last());
        }
        lemma_run_tag(pre, y0, base);
        assert((pre + y).drop_last() =~= pre + y0);
        assert((pre + y).last() == y.last());
        assert((st.tag + y0).push(y.last()) =~= st.tag + y);
    }
}

/// One more character of input.
proof fn lemma_run_push(pre: Seq<char>, c: char, base: nat)
    ensures
        xml_run(pre.push(c), base) == xml_step(xml_run(pre, base), c, base),
{
    assert(pre.push(c).drop_last() =~= pre);
}

/// `out` with one more line of `indent` spaces and `line`, written out.
pub open spec fn with_line(out: Seq<char>, indent: nat, line: Seq<char>) -> Seq<char> {
    if out.len() == 0 {
        spaces(indent) + line
    } else {
        out + seq!['\n'] + spaces(indent) + line
    }
}

/// An opening tag `<name>` read where no tag and no text is pending: a held
/// back opening tag before it goes out on its own line, and this one is
/// held back in turn.
proof fn lemma_run_open_tag(pre: Seq<char>, name: Seq<char>, base: nat)
    requires
        !xml_run(pre, base).in_tag,
        xml_run(pre, base).text.len() == 0,
        plain_tag_name(name),
    ensures
        ({
            let st = xml_run(pre, base);
            let st1 = match st.pending {
                Some(p) => XmlState {
                    out: with_line(st.out, base + 2 * st.depth, p),
                    depth: st.depth + 1,
                    ..st
                },
                None => st,
            };
            xml_run(pre + seq!['<'] + name + seq!['>'], base) == XmlState {
                out: st1.out,
                depth: st1.depth,
                pending: Some(seq!['<'] + name + seq!['>']),
                in_tag: false,
                tag: Seq::empty(),
                text: Seq::empty(),
            }
        }),
{
    let s1 = pre.push('<');
    lemma_run_push(pre, '<', base);
    let s2 = s1 + name;
    lemma_run_tag(s1, name, base);
    assert(xml_run(s2, base).tag =~= seq!['<'] + name);
    let s3 = s2.push('>');
    lemma_run_push(s2, '>', base);
    let t = (seq!['<'] + name).push('>');
    assert(t =~= seq!['<'] + name + seq!['>']);
    assert(!is_closing_tag(t)) by {
        assert(t[1] == name[0]);
    }
    assert(!has_pair(t, '/', '>')) by {
        if has_pair(t, '/', '>') {
            let k = choose|k: int| #[trigger] pair_at(t, k, '/', '>');
            assert(1 <= k <= name.len());
            assert(t[k] == name[k - 1]);
            assert(name.contains('/'));
        }
    }
    assert(!is_standalone_tag(t)) by {
        assert(t[1] == name[0]);
    }
    assert(trim(Seq::<char>::empty()) =~= Seq::<char>::empty()) by {
        reveal_with_fuel(crate::text::trim_start, 1);
        reveal_with_fuel(crate::text::trim_end, 1);
    }
    assert(s3 =~= pre + seq!['<'] + name + seq!['>']);
}

/// A closing tag `</name>` read where no tag, no text and no opening tag is
/// pending goes on its own line one level up, lined up with its opening tag.
proof fn lemma_run_close_tag(pre: Seq<char>, name: Seq<char>, base: nat)
    requires
        !xml_run(pre, base).in_tag,
        xml_run(pre, base).text.len() == 0,
        xml_run(pre, base).pending is None,
        xml_run(pre, base).depth > 0,
        plain_tag_name(name),
    ensures
        ({
            let st = xml_run(pre, base);
            xml_run(pre + seq!['<', '/'] + name + seq!['>'], base) == XmlState {
                out: with_line(st.out, (base + 2 * (st.depth - 1)) as nat, seq!['<', '/'] + name + seq!['>']),
                depth: (st.depth - 1) as nat,
                pending: None,
                in_tag: false,
                tag: Seq::empty(),
                text: Seq::empty(),
            }
        }),
{
    let s5 = pre.push('<');
    lemma_run_push(pre, '<', base);
    let s6 = s5.push('/');
    lemma_run_push(s5, '/', base);
    assert(xml_run(s6, base).tag =~= seq!['<', '/']);
    let s7 = s6 + name;
    lemma_run_tag(s6, name, base);
    let s8 = s7.push('>');
    lemma_run_push(s7, '>', base);
    let t2 = (seq!['<', '/'] + name).push('>');
    assert(xml_run(s7, base).tag =~= seq!['<', '/'] + name);
    assert(t2 =~= seq!['<', '/'] + name + seq!['>']);
    assert(is_closing_tag(t2));
    assert(trim(Seq::<char>::empty()) =~= Seq::<char>::empty()) by {
        reveal_with_fuel(crate::text::trim_start, 1);
        reveal_with_fuel(crate::text::trim_end, 1);
    }
    assert(s8 =~= pre + seq!['<', '/'] + name + seq!['>']);
}

/// Text without `<` and then `</name>`, read where an opening tag is held
/// back and no tag or text is pending: the held-back tag, the text trimmed
/// at both ends and the closing tag go out as one line.
proof fn lemma_run_text_and_close(pre: Seq<char>, name: Seq<char>, x: Seq<char>, base: nat)
    requires
        !xml_run(pre, base).in_tag,
        xml_run(pre, base).text.len() == 0,
        xml_run(pre, base).pending is Some,
        plain_tag_name(name),
        !x.contains('<'),
    ensures
        ({
            let st = xml_run(pre, base);
            xml_run(pre + x + seq!['<', '/'] + name + seq!['>'], base) == XmlState {
                out: with_line(
                    st.out,
                    base + 2 * st.depth,
                    st.pending->0 + trim(x) + seq!['<', '/'] + name + seq!['>'],
                ),
                depth: st.depth,
                pending: None,
                in_tag: false,
                tag: Seq::empty(),
                text: Seq::empty(),
            }
        }),
{
    let s4 = pre + x;
    lemma_run_text(pre, x, base);
    assert(xml_run(s4, base).text =~= x);
    let s5 = s4.push('<');
    lemma_run_push(s4, '<', base);
    let s6 = s5.push('/');
    lemma_run_push(s5, '/', base);
    assert(xml_run(s6, base).tag =~= seq!['<', '/']);
    let s7 = s6 + name;
    lemma_run_tag(s6, name, base);
    let s8 = s7.push('>');
    lemma_run_push(s7, '>', base);
    let t2 = (seq!['<', '/'] + name).push('>');
    assert(xml_run(s7, base).tag =~= seq!['<', '/'] + name);
    assert(t2 =~= seq!['<', '/'] + name + seq!['>']);
    assert(is_closing_tag(t2));
    let st = xml_run(pre, base);
    let st7 = xml_run(s7, base);
    assert(st7.pending == st.pending && st7.out == st.out && st7.depth == st.depth);
    assert(st7.text =~= x);
    assert(st.pending->0 + trim(x) + t2 =~= st.pending->0 + trim(x) + seq!['<', '/'] + name
        + seq!['>']);
    assert(s8 =~= pre + x + seq!['<', '/'] + name + seq!['>']);
}

/// An element that holds only text, met where no tag, text or opening tag is
/// pending, is laid out as one more line, two spaces a level on top of
/// `base`: its opening tag, its text with white space removed at the two
/// ends only, and its closing tag. Nothing else is pending after it.
pub proof fn lemma_text_element_on_one_line(pre: Seq<char>, name: Seq<char>, x: Seq<char>, base: nat)
    requires
        !xml_run(pre, base).in_tag,
        xml_run(pre, base).pending is None,
        xml_run(pre, base).text.len() == 0,
        plain_tag_name(name),
        !x.contains('<'),
    ensures
        ({
            let st = xml_run(pre, base);
            xml_run(pre + text_element(name, x), base) == XmlState {
                out: with_line(st.out, base + 2 * st.depth, text_element(name, trim(x))),
                depth: st.depth,
                pending: None,
                in_tag: false,
                tag: Seq::empty(),
                text: Seq::empty(),
            }
        }),
{
    let open = seq!['<'] + name + seq!['>'];
    lemma_run_open_tag(pre, name, base);
    let s3 = pre + open;
    assert(pre + seq!['<'] + name + seq!['>'] =~= s3);
    lemma_run_text_and_close(s3, name, x, base);
    assert(s3 + x + seq!['<', '/'] + name + seq!['>'] =~= pre + text_element(name, x));
    assert(open + trim(x) + seq!['<', '/'] + name + seq!['>'] =~= text_element(name, trim(x)));
}

/// A document made of one element that holds only text is laid out on one
/// line: `base` spaces, the opening tag, the text with white space removed
/// at the two ends only, and the closing tag.
pub proof fn lemma_text_element_alone(name: Seq<char>, x: Seq<char>, base: nat)
    requires
        plain_tag_name(name),
        !x.contains('<'),
    ensures
        xml_layout(text_element(name, x), base) == spaces(base) + text_element(name, trim(x)),
{
    let e = Seq::<char>::empty();
    lemma_text_element_on_one_line(e, name, x, base);
    assert(e + text_element(name, x) =~= text_element(name, x));
    assert(trim(e) =~= e) by {
        reveal_with_fuel(crate::text::trim_start, 1);
        reveal_with_fuel(crate::text::trim_end, 1);
    }
}

/// An element `root` holding one element that holds only text is laid out
/// on three lines: the opening tag of `root` after `base` spaces, the inner
/// element on one line two spaces further in, and the closing tag of `root`
/// lined up with its opening tag.
#[verifier::spinoff_prover]
#[verifier::rlimit(50)]
pub proof fn lemma_nested_text_element(root: Seq<char>, name: Seq<char>, x: Seq<char>, base: nat)
    requires
        plain_tag_name(root),
        plain_tag_name(name),
        !x.contains('<'),
    ensures
        xml_layout(
            seq!['<'] + root + seq!['>'] + text_element(name, x) + seq!['<', '/'] + root + seq!['>'],
            base,
        ) == spaces(base) + seq!['<'] + root + seq!['>'] + seq!['\n'] + spaces(base + 2)
            + text_element(name, trim(x)) + seq!['\n'] + spaces(base) + seq!['<', '/'] + root + seq![
            '>',
        ],
{
    let e = Seq::<char>::empty();
    let open = seq!['<'] + root + seq!['>'];
    let inner = seq!['<'] + name + seq!['>'];
    let line = text_element(name, trim(x));
    let close = seq!['<', '/'] + root + seq!['>'];
    assert(trim(e) =~= e) by {
        reveal_with_fuel(crate::text::trim_start, 1);
        reveal_with_fuel(crate::text::trim_end, 1);
    }
    lemma_run_open_tag(e, root, base);
    let a = e + seq!['<'] + root + seq!['>'];
    let sa = xml_run(a, base);
    assert(sa.out.len() == 0 && sa.depth == 0 && sa.pending == Some(open));
    assert(!sa.in_tag && sa.text.len() == 0);
    lemma_run_open_tag(a, name, base);
    let b = a + seq!['<'] + name + seq!['>'];
    let sb = xml_run(b, base);
    let o1 = spaces(base) + open;
    assert(sb.out == o1);
    assert(sb.depth == 1 && sb.pending == Some(inner));
    assert(!sb.in_tag && sb.text.len() == 0);
    lemma_run_text_and_close(b, name, x, base);
    let d = b + x + seq!['<', '/'] + name + seq!['>'];
    let sd = xml_run(d, base);
    assert(inner + trim(x) + seq!['<', '/'] + name + seq!['>'] =~= line);
    let o2 = o1 + seq!['\n'] + spaces(base + 2) + line;
    assert(sd.out == o2);
    assert(sd.depth == 1 && sd.pending is None && sd.text.len() == 0 && !sd.in_tag);
    lemma_run_close_tag(d, root, base);
    let f = d + seq!['<', '/'] + root + seq!['>'];
    let sf = xml_run(f, base);
    let o3 = o2 + seq!['\n'] + spaces(base) + close;
    assert(sf.out == o3);
    assert(sf.pending is None && sf.text.len() == 0);
    assert(xml_layout(f, base) == o3);
    let input = seq!['<'] + root + seq!['>'] + text_element(name, x) + seq!['<', '/'] + root + seq![
        '>',
    ];
    assert(f =~= input);
    assert(xml_layout(input, base) == o3);
    assert(o3 =~= spaces(base) + seq!['<'] + root + seq!['>'] + seq!['\n'] + spaces(base + 2)
        + text_element(name, trim(x)) + seq!['\n'] + spaces(base) + seq!['<', '/'] + root + seq![
        '>',
    ]);
}

/// In the text format, every line of a found result goes to standard output,
/// each of its paths among them; every line of a result not found goes to
/// standard error. Without times, a found result gives exactly its paths,
/// one line each and in order, and a result not found gives no line.
pub proof fn lemma_found_paths_go_to_stdout(w: WhichResult, show_time: bool)
    ensures
        w.found ==> forall|i: int|
            0 <= i < w.paths@.len() ==> result_lines(w, show_time).contains((true, #[trigger] w.paths@[i]@)),
        w.found ==> forall|l: (bool, Seq<char>)| #[trigger] result_lines(w, show_time).contains(l) ==> l.0,
        !w.found ==> forall|l: (bool, Seq<char>)| #[trigger] result_lines(w, show_time).contains(l) ==> !l.0,
        !show_time ==> result_lines(w, show_time).len() == (if w.found {
            w.paths@.len()
        } else {
            0
        }),
        !show_time && w.found ==> forall|i: int|
            0 <= i < w.paths@.len() ==> #[trigger] result_lines(w, show_time)[i] == (true, w.paths@[i]@),
{
    let lines = result_lines(w, show_time);
    if w.found {
        let ps = names_of(w.paths@).map_values(|p: Seq<char>| (true, p));
        let tail = if show_time && w.elapsed_time is Some {
            seq![(true, "Time: "@ + w.elapsed_time->0@)]
        } else {
            Seq::<(bool, Seq<char>)>::empty()
        };
        assert(lines == ps + tail);
        assert forall|i: int| 0 <= i < w.paths@.len() implies lines.contains((true, #[trigger] w.paths@[i]@)) by {
            assert(lines[i] == ps[i]);
        }
        assert forall|l: (bool, Seq<char>)| #[trigger] lines.contains(l) implies l.0 by {
            let k = choose|k: int| 0 <= k < lines.len() && lines[k] == l;
            if k < ps.len() {
                assert(lines[k] == ps[k]);
            } else {
                assert(lines[k] == tail[k - ps.len()]);
            }
        }
    } else {
        assert forall|l: (bool, Seq<char>)| #[trigger] lines.contains(l) implies !l.0 by {
            let k = choose|k: int| 0 <= k < lines.len() && lines[k] == l;
        }
    }
}

/// In the text format, each path of each found result is printed on
/// standard output.
pub proof fn lemma_text_output_lists_found_paths(ws: Seq<WhichResult>, show_time: bool)
    ensures
        forall|k: int, i: int|
            #![trigger ws[k].paths@[i]]
            0 <= k < ws.len() && ws[k].found && 0 <= i < ws[k].paths@.len() ==> all_result_lines(
                ws,
                show_time,
            ).contains((true, ws[k].paths@[i]@)),
    decreases ws.len(),
{
    if ws.len() > 0 {
        let t = ws.drop_last();
        lemma_text_output_lists_found_paths(t, show_time);
        let before = all_result_lines(t, show_time);
        let here = result_lines(ws.last(), show_time);
        let all = all_result_lines(ws, show_time);
        assert(all == before + here);
        lemma_found_paths_go_to_stdout(ws.last(), show_time);
        assert forall|k: int, i: int|
            #![trigger ws[k].paths@[i]]
            0 <= k < ws.len() && ws[k].found && 0 <= i < ws[k].paths@.len() implies all.contains(
                (true, ws[k].paths@[i]@),
            ) by {
            let l = (true, ws[k].paths@[i]@);
            if k < t.len() {
                assert(ws[k] == t[k]);
                assert(t[k].paths@[i] == ws[k].paths@[i]);
                assert(before.contains(l));
                let j = choose|j: int| 0 <= j < before.len() && before[j] == l;
                assert(all[j] == before[j]);
            } else {
                assert(ws[k] == ws.last());
                assert(here.contains(l));
                let j = choose|j: int| 0 <= j < here.len() && here[j] == l;
                assert(all[before.len() + j] == here[j]);
            }
        }
    }
}

/// `p` is the canonical form of one of `names` placed in one of `dirs`,
/// where that path is a regular file and is executable.
pub open spec fn found_among<F: FileSystem>(
    fs: &F,
    dirs: Seq<Seq<char>>,
    names: Seq<Seq<char>>,
    p: Seq<char>,
) -> bool {
    exists|d: Seq<char>, n: Seq<char>|
        #![trigger dirs.contains(d), names.contains(n)]
        {
            &&& dirs.contains(d)
            &&& names.contains(n)
            &&& fs.fs_is_file(join_path(d, n))
            &&& fs.fs_is_executable(join_path(d, n))
            &&& fs.fs_canonicalize(join_path(d, n)) == Ok::<Seq<char>, Seq<char>>(p)
        }
}

proof fn lemma_probed_hits_found<F: FileSystem>(fs: &F, dir: Seq<char>, names: Seq<Seq<char>>)
    ensures
        forall|p: Seq<char>| #[trigger] probed_hits(fs, dir, names).contains(p) ==> exists|n: Seq<char>|
            #[trigger] names.contains(n) && fs.fs_is_file(join_path(dir, n)) && fs.fs_is_executable(
                join_path(dir, n),
            ) && fs.fs_canonicalize(join_path(dir, n)) == Ok::<Seq<char>, Seq<char>>(p),
    decreases names.len(),
{
    if names.len() > 0 {
        let t = names.drop_last();
        lemma_probed_hits_found(fs, dir, t);
        let before = probed_hits(fs, dir, t);
        let all = probed_hits(fs, dir, names);
        assert forall|p: Seq<char>| #[trigger] all.contains(p) implies exists|n: Seq<char>|
            #[trigger] names.contains(n) && fs.fs_is_file(join_path(dir, n)) && fs.fs_is_executable(
                join_path(dir, n),
            ) && fs.fs_canonicalize(join_path(dir, n)) == Ok::<Seq<char>, Seq<char>>(p) by {
            let k = choose|k: int| 0 <= k < all.len() && all[k] == p;
            if k < before.len() {
                assert(before[k] == p);
                assert(before.contains(p));
                let n = choose|n: Seq<char>|
                    #[trigger] t.contains(n) && fs.fs_is_file(join_path(dir, n)) && fs.fs_is_executable(
                        join_path(dir, n),
                    ) && fs.fs_canonicalize(join_path(dir, n)) == Ok::<Seq<char>, Seq<char>>(p);
                let j = choose|j: int| 0 <= j < t.len() && t[j] == n;
                assert(names[j] == n);
                assert(names.contains(n));
            } else {
                let n = names.last();
                assert(names[names.len() - 1] == n);
                assert(names.contains(n));
                assert(probe(fs, join_path(dir, n)) == Some(p));
            }
        }
    }
}

proof fn lemma_all_hits_found<F: FileSystem>(
    fs: &F,
    cmd: Seq<char>,
    exts: Option<Seq<Seq<char>>>,
    dirs: Seq<Seq<char>>,
)
    ensures
        forall|p: Seq<char>| #[trigger] all_hits(fs, cmd, None, exts, dirs).contains(p) ==> found_among(
            fs,
            dirs,
            candidates(cmd, exts),
            p,
        ),
    decreases dirs.len(),
{
    if dirs.len() > 0 {
        let t = dirs.drop_last();
        let d = dirs.last();
        let names = candidates(cmd, exts);
        lemma_all_hits_found(fs, cmd, exts, t);
        lemma_probed_hits_found(fs, d, names);
        let before = all_hits(fs, cmd, None, exts, t);
        let here = dir_hits(fs, cmd, None, exts, d);
        let all = all_hits(fs, cmd, None, exts, dirs);
        assert(all == before + here);
        assert(dirs[dirs.len() - 1] == d);
        assert forall|p: Seq<char>| #[trigger] all.contains(p) implies found_among(fs, dirs, names, p) by {
            let k = choose|k: int| 0 <= k < all.len() && all[k] == p;
            if k < before.len() {
                assert(before[k] == p);
                assert(before.contains(p));
                let (e, n) = choose|e: Seq<char>, n: Seq<char>|
                    #![trigger t.contains(e), names.contains(n)]
                    {
                        &&& t.contains(e)
                        &&& names.contains(n)
                        &&& fs.fs_is_file(join_path(e, n))
                        &&& fs.fs_is_executable(join_path(e, n))
                        &&& fs.fs_canonicalize(join_path(e, n)) == Ok::<Seq<char>, Seq<char>>(p)
                    };
                let j = choose|j: int| 0 <= j < t.len() && t[j] == e;
                assert(dirs[j] == e);
                assert(dirs.contains(e));
            } else {
                assert(here[k - before.len()] == p);
                assert(here.contains(p));
                let n = choose|n: Seq<char>|
                    #[trigger] names.contains(n) && fs.fs_is_file(join_path(d, n)) && fs.fs_is_executable(
                        join_path(d, n),
                    ) && fs.fs_canonicalize(join_path(d, n)) == Ok::<Seq<char>, Seq<char>>(p);
                assert(dirs.contains(d));
            }
        }
    }
}

/// Without `regex` and `show_tilde`, every path a search along the search
/// path answers with is the canonical form of a candidate it probed: the
/// command (or the command with one of the extensions) placed in one of the
/// searched directories, where that path is a regular file and is
/// executable.
pub proof fn lemma_results_are_probed_candidates<F: FileSystem>(
    fs: &F,
    cmd: Seq<char>,
    opts: Map<Seq<char>, bool>,
    home: Option<Seq<char>>,
    platform: Platform,
    path_var: Seq<char>,
)
    requires
        !has_separator(cmd),
        !wants_regex(opts),
        !flag_on(opts, "show_tilde"@),
    ensures
        which_spec(fs, cmd, opts, home, platform, path_var) matches Ok(paths) ==> forall|p: Seq<char>|
            #[trigger] paths.contains(p) ==> found_among(
                fs,
                search_dirs(path_var, opts, platform.separator),
                candidates(cmd, platform.extensions),
                p,
            ),
{
    let dirs = search_dirs(path_var, opts, platform.separator);
    let hits = all_hits(fs, cmd, None, platform.extensions, dirs);
    lemma_all_hits_found(fs, cmd, platform.extensions, dirs);
    lemma_first_occurrences(hits);
    let found = first_occurrences(hits);
    assert forall|p: Seq<char>| format_path(p, opts, home) == p by {}
    if let Ok(paths) = which_spec(fs, cmd, opts, home, platform, path_var) {
        assert forall|p: Seq<char>| #[trigger] paths.contains(p) implies found_among(
            fs,
            dirs,
            candidates(cmd, platform.extensions),
            p,
        ) by {
            let k = choose|k: int| 0 <= k < paths.len() && paths[k] == p;
            if wants_all(opts) {
                assert(paths[k] == found[k]);
            } else {
                assert(paths[k] == found[0]);
                assert(found.contains(found[0]));
            }
            assert(found.contains(p));
            assert(hits.contains(p));
        }
    }
}

/// `skip_dot` alone leaves every entry without a `.` in it (once trimmed),
/// and drops every entry that starts with `.`; `skip_tilde` alone does the
/// same with `~`.
pub proof fn lemma_skip_switch_effects(d: Seq<char>, opts: Map<Seq<char>, bool>)
    ensures
        flag_on(opts, "skip_dot"@) && !flag_on(opts, "skip_tilde"@) ==> {
            &&& !trim(d).contains('.') ==> !skips_dir(d, opts)
            &&& trim(d).len() > 0 && trim(d)[0] == '.' ==> skips_dir(d, opts)
        },
        flag_on(opts, "skip_tilde"@) && !flag_on(opts, "skip_dot"@) ==> {
            &&& !trim(d).contains('~') ==> !skips_dir(d, opts)
            &&& trim(d).len() > 0 && trim(d)[0] == '~' ==> skips_dir(d, opts)
        },
{
    let t = trim(d);
    assert forall|a: char, b: char| #[trigger] has_pair(t, a, b) implies t.contains(b) by {
        let k = choose|k: int| #[trigger] pair_at(t, k, a, b);
        assert(t[k + 1] == b);
    }
    if t.len() > 0 {
        assert(t.contains(t[0]));
    }
}

} // verus!
