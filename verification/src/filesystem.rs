//! The file system interface a search runs against, and three models of it:
//! an in-memory tree, a record of answers gathered from the host, and the
//! empty file system seen from WebAssembly.
use vstd::prelude::*;
use crate::text::{
    chars_of, replace_chars, replace_char, strip_leading, strip_leading_chars, strip_trailing,
    strip_trailing_chars, string_of, append_chars, starts_with_chars, split_on, split_chars,
};

verus! {

/// What a file system reports about one path.
#[derive(Debug, Clone, Copy)]
pub struct Metadata {
    pub is_file: bool,
    pub is_executable: bool,
}

/// A failure reported by a file system, with its message.
#[derive(Debug, Clone)]
pub struct FsError {
    pub message: String,
}

impl View for FsError {
    type V = Seq<char>;

    open spec fn view(&self) -> Seq<char> {
        self.message@
    }
}

/// The view of a file system answer that carries a string or an error.
pub open spec fn text_result_view(r: Result<String, FsError>) -> Result<Seq<char>, Seq<char>> {
    match r {
        Ok(s) => Ok(s@),
        Err(e) => Err(e@),
    }
}

/// The view of a directory listing.
pub open spec fn names_of(v: Seq<String>) -> Seq<Seq<char>> {
    v.map_values(|s: String| s@)
}

/// A file system that a search can query. Each query is described by a spec
/// function of the implementation, so that a search over it has an exact
/// result.
pub trait FileSystem: Send + Sync {
    spec fn fs_exists(&self, path: Seq<char>) -> bool;

    spec fn fs_is_file(&self, path: Seq<char>) -> bool;

    spec fn fs_is_executable(&self, path: Seq<char>) -> bool;

    spec fn fs_canonicalize(&self, path: Seq<char>) -> Result<Seq<char>, Seq<char>>;

    spec fn fs_metadata(&self, path: Seq<char>) -> Result<Metadata, Seq<char>>;

    /// The names of the entries of directory `dir`, or `None` when it cannot be listed.
    spec fn fs_read_dir(&self, dir: Seq<char>) -> Option<Seq<Seq<char>>>;

    /// Whether `path` exists.
    fn path_exists(&self, path: &str) -> (r: bool)
        ensures
            r == self.fs_exists(path@),
    ;

    /// Whether `path` is a file.
    fn is_file(&self, path: &str) -> (r: bool)
        ensures
            r == self.fs_is_file(path@),
    ;

    /// Whether `path` may be executed.
    fn is_executable(&self, path: &str) -> (r: bool)
        ensures
            r == self.fs_is_executable(path@),
    ;

    /// The canonical form of `path`.
    fn canonicalize(&self, path: &str) -> (r: Result<String, FsError>)
        ensures
            text_result_view(r) == self.fs_canonicalize(path@),
    ;

    /// The metadata of `path`.
    fn metadata(&self, path: &str) -> (r: Result<Metadata, FsError>)
        ensures
            match r {
                Ok(m) => self.fs_metadata(path@) == Ok::<Metadata, Seq<char>>(m),
                Err(e) => self.fs_metadata(path@) == Err::<Metadata, Seq<char>>(e@),
            },
    ;

    /// The names of the entries of directory `dir`.
    fn read_dir(&self, dir: &str) -> (r: Option<Vec<String>>)
        ensures
            match r {
                Some(v) => self.fs_read_dir(dir@) == Some(names_of(v@)),
                None => self.fs_read_dir(dir@) is None,
            },
    ;
}

/// The position of the last entry of `s` keyed by `k`, or -1 when there is none.
pub open spec fn last_index_of<T>(s: Seq<(String, T)>, k: Seq<char>) -> int
    decreases s.len(),
{
    if s.len() == 0 {
        -1
    } else if s.last().0@ == k {
        s.len() - 1
    } else {
        last_index_of(s.drop_last(), k)
    }
}

pub proof fn lemma_last_index_of<T>(s: Seq<(String, T)>, k: Seq<char>)
    ensures
        -1 <= last_index_of(s, k) < s.len(),
        last_index_of(s, k) >= 0 ==> s[last_index_of(s, k)].0@ == k,
        forall|j: int| last_index_of(s, k) < j < s.len() ==> #[trigger] s[j].0@ != k,
    decreases s.len(),
{
    if s.len() > 0 && s.last().0@ != k {
        lemma_last_index_of(s.drop_last(), k);
        assert forall|j: int| last_index_of(s, k) < j < s.len() implies #[trigger] s[j].0@ != k by {
            if j < s.len() - 1 {
                assert(s[j] == s.drop_last()[j]);
            }
        }
    }
}

/// Two entry lists with the same keys in the same places find the same entries.
pub proof fn lemma_last_index_same_keys<T>(s1: Seq<(String, T)>, s2: Seq<(String, T)>, k: Seq<char>)
    requires
        s1.len() == s2.len(),
        forall|j: int| 0 <= j < s1.len() ==> #[trigger] s1[j].0@ == s2[j].0@,
    ensures
        last_index_of(s1, k) == last_index_of(s2, k),
    decreases s1.len(),
{
    if s1.len() > 0 {
        assert(s1.last().0@ == s2.last().0@);
        let t1 = s1.drop_last();
        let t2 = s2.drop_last();
        assert forall|j: int| 0 <= j < t1.len() implies #[trigger] t1[j].0@ == t2[j].0@ by {
            assert(t1[j] == s1[j] && t2[j] == s2[j]);
        }
        lemma_last_index_same_keys(t1, t2, k);
    }
}

/// Finds the last entry of `v` keyed by `k`.
pub fn find_last<T>(v: &Vec<(String, T)>, k: &String) -> (r: Option<usize>)
    ensures
        match r {
            Some(i) => i == last_index_of(v@, k@),
            None => last_index_of(v@, k@) == -1,
        },
{
    let mut i = v.len();
    proof {
        lemma_last_index_of(v@, k@);
    }
    while i > 0
        invariant
            i <= v@.len(),
            -1 <= last_index_of(v@, k@) < v@.len(),
            last_index_of(v@, k@) >= 0 ==> v@[last_index_of(v@, k@)].0@ == k@,
            forall|j: int| last_index_of(v@, k@) < j < v@.len() ==> #[trigger] v@[j].0@ != k@,
            last_index_of(v@, k@) < i,
        decreases i,
    {
        i = i - 1;
        if v[i].0 == *k {
            return Some(i);
        }
    }
    None
}

/// The map that an entry list stands for: each key to the value of its last entry.
pub open spec fn entry_map<T>(s: Seq<(String, T)>) -> Map<Seq<char>, T> {
    Map::new(|k: Seq<char>| last_index_of(s, k) >= 0, |k: Seq<char>| s[last_index_of(s, k)].1)
}

/// The keys of an entry list, in order.
pub open spec fn entry_keys<T>(s: Seq<(String, T)>) -> Seq<Seq<char>> {
    s.map_values(|e: (String, T)| e.0@)
}

/// Stores `value` under `key`: the last entry keyed `key` is overwritten, or
/// a new entry is appended when there is none.
pub fn upsert<T>(v: &mut Vec<(String, T)>, key: String, value: T)
    ensures
        entry_map(final(v)@) == entry_map(old(v)@).insert(key@, value),
        entry_map(old(v)@).contains_key(key@) ==> entry_keys(final(v)@) == entry_keys(old(v)@),
        !entry_map(old(v)@).contains_key(key@) ==> entry_keys(final(v)@) == entry_keys(old(v)@).push(
            key@,
        ),
{
    let ghost k = key@;
    proof {
        lemma_last_index_of(v@, k);
    }
    match find_last(v, &key) {
        Some(i) => {
            let ghost s0 = v@;
            v.set(i, (key, value));
            proof {
                assert forall|j: int| 0 <= j < s0.len() implies #[trigger] v@[j].0@ == s0[j].0@ by {
                }
                assert forall|k2: Seq<char>| #[trigger] last_index_of(v@, k2) == last_index_of(s0, k2) by {
                    lemma_last_index_same_keys(v@, s0, k2);
                }
                assert forall|k2: Seq<char>| k2 != k && last_index_of(s0, k2) >= 0 implies v@[last_index_of(s0, k2)]
                    == #[trigger] s0[last_index_of(s0, k2)] by {
                    lemma_last_index_of(s0, k2);
                }
                assert(entry_map(v@) =~= entry_map(s0).insert(k, value));
                assert(entry_keys(v@) =~= entry_keys(s0));
            }
        },
        None => {
            let ghost s0 = v@;
            v.push((key, value));
            proof {
                assert(v@.drop_last() =~= s0);
                assert(v@.last().0@ == k);
                assert(last_index_of(v@, k) == s0.len());
                assert forall|k2: Seq<char>| k2 != k implies #[trigger] last_index_of(v@, k2)
                    == last_index_of(s0, k2) by {
                }
                assert forall|k2: Seq<char>| k2 != k && last_index_of(s0, k2) >= 0 implies v@[last_index_of(s0, k2)]
                    == #[trigger] s0[last_index_of(s0, k2)] by {
                    lemma_last_index_of(s0, k2);
                }
                assert(entry_map(v@) =~= entry_map(s0).insert(k, value));
                assert(entry_keys(v@) =~= entry_keys(s0).push(k));
            }
        },
    }
}

/// Where `path` leads from directory `cwd`, by Unix path rules on every
/// platform: back slashes become slashes, and a path is absolute exactly when
/// it starts with `/`; any other path (a drive-prefixed one such as `C:/x`
/// included) is taken relative to `cwd`.
pub open spec fn normalize_path(cwd: Seq<char>, path: Seq<char>) -> Seq<char> {
    let p = replace_char(path, '\\', '/');
    if path.len() > 0 && path[0] == '/' {
        p
    } else {
        strip_trailing(cwd, '/') + seq!['/'] + strip_leading(p, '/')
    }
}

/// The name of `path` as an entry of the directory written `prefix` (which
/// ends in `/`), if it is one.
pub open spec fn child_name(prefix: Seq<char>, path: Seq<char>) -> Option<Seq<char>> {
    if prefix.len() < path.len() && path.take(prefix.len() as int) == prefix && !path.skip(
        prefix.len() as int,
    ).contains('/') {
        Some(path.skip(prefix.len() as int))
    } else {
        None
    }
}

/// The entries of the directory written `prefix` among `paths`, in order.
pub open spec fn children(prefix: Seq<char>, paths: Seq<Seq<char>>) -> Seq<Seq<char>>
    decreases paths.len(),
{
    if paths.len() == 0 {
        Seq::empty()
    } else {
        let before = children(prefix, paths.drop_last());
        match child_name(prefix, paths.last()) {
            Some(n) => before.push(n),
            None => before,
        }
    }
}

/// An in-memory file system: a set of file paths, each executable or not,
/// and a current directory that relative paths are resolved against (by Unix
/// path rules, see `normalize_path`). A clone is a copy: files added to one
/// afterwards are not seen by the other.
#[derive(Debug, Clone)]
pub struct VirtualFileSystem {
    files: Vec<(String, bool)>,
    current_dir: String,
}

impl View for VirtualFileSystem {
    type V = Map<Seq<char>, bool>;

    /// Each file path to whether it is executable.
    closed spec fn view(&self) -> Map<Seq<char>, bool> {
        entry_map(self.files@)
    }
}

/// What `add_files` leaves in a file map.
pub open spec fn with_files(m: Map<Seq<char>, bool>, files: Seq<(&str, bool)>) -> Map<
    Seq<char>,
    bool,
>
    decreases files.len(),
{
    if files.len() == 0 {
        m
    } else {
        with_files(m, files.drop_last()).insert(
            replace_char(files.last().0@, '\\', '/'),
            files.last().1,
        )
    }
}

impl VirtualFileSystem {
    /// The paths listed are exactly the files there are.
    pub proof fn lemma_paths_are_files(&self)
        ensures
            forall|k: Seq<char>| #[trigger] self@.contains_key(k) <==> self.paths().contains(k),
    {
        assert forall|k: Seq<char>| #[trigger] self@.contains_key(k) <==> self.paths().contains(k) by {
            lemma_last_index_of(self.files@, k);
            let idx = last_index_of(self.files@, k);
            if idx >= 0 {
                assert(self.paths()[idx] == k);
            }
            if self.paths().contains(k) {
                let j = choose|j: int| 0 <= j < self.paths().len() && self.paths()[j] == k;
                assert(self.files@[j].0@ == k);
            }
        }
    }

    /// The current directory.
    pub closed spec fn cwd(&self) -> Seq<char> {
        self.current_dir@
    }

    /// The file paths in the order they were first added.
    pub closed spec fn paths(&self) -> Seq<Seq<char>> {
        entry_keys(self.files@)
    }

    /// No file; the current directory is `/`.
    pub fn new() -> (r: VirtualFileSystem)
        ensures
            r@ == Map::<Seq<char>, bool>::empty(),
            r.paths() == Seq::<Seq<char>>::empty(),
            r.cwd() == seq!['/'],
    {
        let r = VirtualFileSystem { files: Vec::new(), current_dir: "/".to_owned() };
        proof {
            reveal_strlit("/");
            assert(r@ =~= Map::<Seq<char>, bool>::empty());
            assert(r.paths() =~= Seq::<Seq<char>>::empty());
        }
        r
    }

    /// Adds the file `path` (back slashes read as slashes), or updates it
    /// when it is there.
    pub fn add_file(&mut self, path: &str, executable: bool)
        ensures
            final(self)@ == old(self)@.insert(replace_char(path@, '\\', '/'), executable),
            final(self).cwd() == old(self).cwd(),
            old(self)@.contains_key(replace_char(path@, '\\', '/')) ==> final(self).paths() == old(
                self,
            ).paths(),
            !old(self)@.contains_key(replace_char(path@, '\\', '/')) ==> final(self).paths()
                == old(self).paths().push(replace_char(path@, '\\', '/')),
            old(self).paths().no_duplicates() ==> final(self).paths().no_duplicates(),
    {
        proof {
            old(self).lemma_paths_are_files();
        }
        let key = string_of(&replace_chars(&chars_of(path), '\\', '/'));
        upsert(&mut self.files, key, executable);
    }

    /// Adds each of `files` in turn.
    pub fn add_files(&mut self, files: Vec<(&str, bool)>)
        ensures
            final(self)@ == with_files(old(self)@, files@),
            final(self).cwd() == old(self).cwd(),
            old(self).paths().no_duplicates() ==> final(self).paths().no_duplicates(),
    {
        let mut i: usize = 0;
        while i < files.len()
            invariant
                i <= files@.len(),
                self@ == with_files(old(self)@, files@.take(i as int)),
                self.cwd() == old(self).cwd(),
                old(self).paths().no_duplicates() ==> self.paths().no_duplicates(),
            decreases files.len() - i,
        {
            let (path, executable) = files[i];
            self.add_file(path, executable);
            assert(files@.take(i + 1).drop_last() =~= files@.take(i as int));
            i = i + 1;
        }
        assert(files@.take(files@.len() as int) =~= files@);
    }

    /// Sets the current directory (back slashes read as slashes).
    pub fn set_current_dir(&mut self, dir: &str)
        ensures
            final(self)@ == old(self)@,
            final(self).paths() == old(self).paths(),
            final(self).cwd() == replace_char(dir@, '\\', '/'),
    {
        self.current_dir = string_of(&replace_chars(&chars_of(dir), '\\', '/'));
    }

    /// Every file path, in the order they were first added.
    pub fn get_all_paths(&self) -> (r: Vec<String>)
        ensures
            names_of(r@) == self.paths(),
    {
        let mut r: Vec<String> = Vec::new();
        let mut i: usize = 0;
        while i < self.files.len()
            invariant
                i <= self.files@.len(),
                r@.len() == i,
                names_of(r@) == entry_keys(self.files@).take(i as int),
            decreases self.files.len() - i,
        {
            let p = self.files[i].0.clone();
            assert(p@ == self.files@[i as int].0@);
            let ghost before = r@;
            r.push(p);
            proof {
                assert(r@ == before.push(p));
                assert forall|j: int| 0 <= j < i + 1 implies #[trigger] names_of(r@)[j] == entry_keys(
                    self.files@,
                ).take(i + 1)[j] by {
                    if j < i {
                        assert(r@[j] == before[j]);
                        assert(names_of(before)[j] == entry_keys(self.files@).take(i as int)[j]);
                    }
                }
            }
            i = i + 1;
            assert(names_of(r@) =~= entry_keys(self.files@).take(i as int));
        }
        assert(entry_keys(self.files@).take(self.files@.len() as int) =~= entry_keys(self.files@));
        r
    }

    /// Where `path` leads from the current directory.
    fn normalize_path(&self, path: &str) -> (r: String)
        ensures
            r@ == normalize_path(self.cwd(), path@),
    {
        let p = replace_chars(&chars_of(path), '\\', '/');
        let raw = chars_of(path);
        if raw.len() > 0 && raw[0] == '/' {
            string_of(&p)
        } else {
            let mut out = strip_trailing_chars(&chars_of(self.current_dir.as_str()), '/');
            out.push('/');
            append_chars(&mut out, &strip_leading_chars(&p, '/'));
            string_of(&out)
        }
    }

    /// Whether `path`, resolved, is a file, and whether it is executable.
    fn lookup(&self, path: &str) -> (r: Option<bool>)
        ensures
            r == (if self@.contains_key(normalize_path(self.cwd(), path@)) {
                Some(self@[normalize_path(self.cwd(), path@)])
            } else {
                None
            }),
    {
        let key = self.normalize_path(path);
        proof {
            lemma_last_index_of(self.files@, key@);
        }
        match find_last(&self.files, &key) {
            Some(i) => Some(self.files[i].1),
            None => None,
        }
    }
}

impl Default for VirtualFileSystem {
    fn default() -> (r: VirtualFileSystem)
        ensures
            r@ == Map::<Seq<char>, bool>::empty(),
            r.paths() == Seq::<Seq<char>>::empty(),
            r.cwd() == seq!['/'],
    {
        VirtualFileSystem::new()
    }
}

/// The message of a metadata query on a missing virtual file.
pub open spec fn missing_file_message() -> Seq<char> {
    "File not found"@
}

impl FileSystem for VirtualFileSystem {
    open spec fn fs_exists(&self, path: Seq<char>) -> bool {
        self@.contains_key(normalize_path(self.cwd(), path))
    }

    open spec fn fs_is_file(&self, path: Seq<char>) -> bool {
        self.fs_exists(path)
    }

    open spec fn fs_is_executable(&self, path: Seq<char>) -> bool {
        self.fs_exists(path) && self@[normalize_path(self.cwd(), path)]
    }

    open spec fn fs_canonicalize(&self, path: Seq<char>) -> Result<Seq<char>, Seq<char>> {
        Ok(normalize_path(self.cwd(), path))
    }

    open spec fn fs_metadata(&self, path: Seq<char>) -> Result<Metadata, Seq<char>> {
        if self.fs_exists(path) {
            Ok(Metadata { is_file: true, is_executable: self@[normalize_path(self.cwd(), path)] })
        } else {
            Err(missing_file_message())
        }
    }

    open spec fn fs_read_dir(&self, dir: Seq<char>) -> Option<Seq<Seq<char>>> {
        Some(
            children(strip_trailing(normalize_path(self.cwd(), dir), '/') + seq!['/'], self.paths()),
        )
    }

    fn path_exists(&self, path: &str) -> (r: bool) {
        self.lookup(path).is_some()
    }

    fn is_file(&self, path: &str) -> (r: bool) {
        self.path_exists(path)
    }

    fn is_executable(&self, path: &str) -> (r: bool) {
        match self.lookup(path) {
            Some(e) => e,
            None => false,
        }
    }

    fn canonicalize(&self, path: &str) -> (r: Result<String, FsError>) {
        Ok(self.normalize_path(path))
    }

    fn metadata(&self, path: &str) -> (r: Result<Metadata, FsError>) {
        match self.lookup(path) {
            Some(e) => Ok(Metadata { is_file: true, is_executable: e }),
            None => {
                let message = "File not found".to_owned();
                proof {
                    reveal_strlit("File not found");
                }
                Err(FsError { message })
            },
        }
    }

    fn read_dir(&self, dir: &str) -> (r: Option<Vec<String>>) {
        let mut prefix = strip_trailing_chars(&chars_of(self.normalize_path(dir).as_str()), '/');
        prefix.push('/');
        assert(prefix@ =~= strip_trailing(normalize_path(self.cwd(), dir@), '/') + seq!['/']);
        let mut names: Vec<String> = Vec::new();
        let mut i: usize = 0;
        while i < self.files.len()
            invariant
                i <= self.files@.len(),
                prefix@ == strip_trailing(normalize_path(self.cwd(), dir@), '/') + seq!['/'],
                names_of(names@) == children(prefix@, entry_keys(self.files@).take(i as int)),
            decreases self.files.len() - i,
        {
            let path = chars_of(self.files[i].0.as_str());
            let ghost keys = entry_keys(self.files@).take(i + 1);
            assert(keys.drop_last() =~= entry_keys(self.files@).take(i as int));
            assert(keys.last() == path@);
            if let Some(name) = child_name_chars(&prefix, &path) {
                names.push(string_of(&name));
                assert(names_of(names@) =~= children(prefix@, keys));
            }
            i = i + 1;
        }
        assert(entry_keys(self.files@).take(self.files@.len() as int) =~= entry_keys(self.files@));
        Some(names)
    }
}

/// The entry name of `path` in the directory written `prefix`, if it is one.
fn child_name_chars(prefix: &Vec<char>, path: &Vec<char>) -> (r: Option<Vec<char>>)
    ensures
        match r {
            Some(n) => child_name(prefix@, path@) == Some(n@),
            None => child_name(prefix@, path@) is None,
        },
{
    if prefix.len() >= path.len() || !starts_with_chars(path, prefix) {
        return None;
    }
    let mut name: Vec<char> = Vec::new();
    let mut i = prefix.len();
    while i < path.len()
        invariant
            prefix@.len() <= i <= path@.len(),
            name@ == path@.subrange(prefix@.len() as int, i as int),
            !name@.contains('/'),
        decreases path.len() - i,
    {
        if path[i] == '/' {
            assert(path@.skip(prefix@.len() as int)[i - prefix@.len()] == '/');
            return None;
        }
        name.push(path[i]);
        i = i + 1;
        assert(name@ =~= path@.subrange(prefix@.len() as int, i as int));
    }
    assert(name@ =~= path@.skip(prefix@.len() as int));
    Some(name)
}

/// What the host reported about one path.
#[derive(Debug)]
pub struct HostEntry {
    pub present: bool,
    pub is_file: bool,
    pub is_executable: bool,
    /// The canonical path, or the reason it could not be found.
    pub canonical: Result<String, String>,
}

/// The file system of the host, as answers recorded for the paths a search
/// asks about. A path with no record does not exist, and a directory with no
/// recorded listing cannot be listed.
#[derive(Debug)]
pub struct NativeFileSystem {
    entries: Vec<(String, HostEntry)>,
    listings: Vec<(String, Vec<String>)>,
}

/// The message of a canonicalization of a path the host was not asked about.
pub open spec fn unrecorded_message() -> Seq<char> {
    "No such file or directory"@
}

impl NativeFileSystem {
    /// The answers recorded for each path.
    pub closed spec fn recorded(&self) -> Map<Seq<char>, HostEntry> {
        entry_map(self.entries@)
    }

    /// The listings recorded for each directory.
    pub closed spec fn listed(&self) -> Map<Seq<char>, Seq<Seq<char>>> {
        entry_map(self.listings@).map_values(|v: Vec<String>| names_of(v@))
    }

    /// Nothing recorded.
    pub fn new() -> (r: NativeFileSystem)
        ensures
            r.recorded() == Map::<Seq<char>, HostEntry>::empty(),
            r.listed() == Map::<Seq<char>, Seq<Seq<char>>>::empty(),
    {
        let r = NativeFileSystem { entries: Vec::new(), listings: Vec::new() };
        assert(r.recorded() =~= Map::<Seq<char>, HostEntry>::empty());
        assert(r.listed() =~= Map::<Seq<char>, Seq<Seq<char>>>::empty());
        r
    }

    /// Records what the host reported about `path`.
    pub fn record_entry(&mut self, path: String, entry: HostEntry)
        ensures
            final(self).recorded() == old(self).recorded().insert(path@, entry),
            final(self).listed() == old(self).listed(),
    {
        upsert(&mut self.entries, path, entry);
    }

    /// Records the names of the entries of directory `dir`.
    pub fn record_listing(&mut self, dir: String, names: Vec<String>)
        ensures
            final(self).recorded() == old(self).recorded(),
            final(self).listed() == old(self).listed().insert(dir@, names_of(names@)),
    {
        let ghost d = dir@;
        let ghost ns = names@;
        upsert(&mut self.listings, dir, names);
        assert(self.listed() =~= old(self).listed().insert(d, names_of(ns)));
    }

    fn entry(&self, path: &str) -> (r: Option<&HostEntry>)
        ensures
            match r {
                Some(e) => self.recorded().contains_key(path@) && self.recorded()[path@] == *e,
                None => !self.recorded().contains_key(path@),
            },
    {
        let key = path.to_owned();
        proof {
            lemma_last_index_of(self.entries@, key@);
        }
        match find_last(&self.entries, &key) {
            Some(i) => Some(&self.entries[i].1),
            None => None,
        }
    }
}

impl Default for NativeFileSystem {
    fn default() -> (r: NativeFileSystem)
        ensures
            r.recorded() == Map::<Seq<char>, HostEntry>::empty(),
            r.listed() == Map::<Seq<char>, Seq<Seq<char>>>::empty(),
    {
        NativeFileSystem::new()
    }
}

impl FileSystem for NativeFileSystem {
    open spec fn fs_exists(&self, path: Seq<char>) -> bool {
        self.recorded().contains_key(path) && self.recorded()[path].present
    }

    open spec fn fs_is_file(&self, path: Seq<char>) -> bool {
        self.recorded().contains_key(path) && self.recorded()[path].is_file
    }

    open spec fn fs_is_executable(&self, path: Seq<char>) -> bool {
        self.recorded().contains_key(path) && self.recorded()[path].is_executable
    }

    open spec fn fs_canonicalize(&self, path: Seq<char>) -> Result<Seq<char>, Seq<char>> {
        if self.recorded().contains_key(path) {
            match self.recorded()[path].canonical {
                Ok(c) => Ok(c@),
                Err(m) => Err(m@),
            }
        } else {
            Err(unrecorded_message())
        }
    }

    open spec fn fs_metadata(&self, path: Seq<char>) -> Result<Metadata, Seq<char>> {
        Ok(Metadata { is_file: self.fs_is_file(path), is_executable: self.fs_is_executable(path) })
    }

    open spec fn fs_read_dir(&self, dir: Seq<char>) -> Option<Seq<Seq<char>>> {
        if self.listed().contains_key(dir) {
            Some(self.listed()[dir])
        } else {
            None
        }
    }

    fn path_exists(&self, path: &str) -> (r: bool) {
        match self.entry(path) {
            Some(e) => e.present,
            None => false,
        }
    }

    fn is_file(&self, path: &str) -> (r: bool) {
        match self.entry(path) {
            Some(e) => e.is_file,
            None => false,
        }
    }

    fn is_executable(&self, path: &str) -> (r: bool) {
        match self.entry(path) {
            Some(e) => e.is_executable,
            None => false,
        }
    }

    fn canonicalize(&self, path: &str) -> (r: Result<String, FsError>) {
        match self.entry(path) {
            Some(e) => match &e.canonical {
                Ok(c) => Ok(c.clone()),
                Err(m) => Err(FsError { message: m.clone() }),
            },
            None => {
                let message = "No such file or directory".to_owned();
                proof {
                    reveal_strlit("No such file or directory");
                }
                Err(FsError { message })
            },
        }
    }

    fn metadata(&self, path: &str) -> (r: Result<Metadata, FsError>) {
        Ok(Metadata { is_file: self.is_file(path), is_executable: self.is_executable(path) })
    }

    fn read_dir(&self, dir: &str) -> (r: Option<Vec<String>>) {
        let key = dir.to_owned();
        proof {
            lemma_last_index_of(self.listings@, key@);
        }
        match find_last(&self.listings, &key) {
            Some(i) => Some(self.listings[i].1.clone()),
            None => None,
        }
    }
}

/// The file system seen from WebAssembly in a browser: nothing exists there.
#[derive(Debug, Clone, Copy)]
pub struct WasmFileSystem;

impl WasmFileSystem {
    pub fn new() -> (r: WasmFileSystem) {
        WasmFileSystem
    }
}

impl Default for WasmFileSystem {
    fn default() -> (r: WasmFileSystem) {
        WasmFileSystem::new()
    }
}

impl FileSystem for WasmFileSystem {
    open spec fn fs_exists(&self, path: Seq<char>) -> bool {
        false
    }

    open spec fn fs_is_file(&self, path: Seq<char>) -> bool {
        false
    }

    open spec fn fs_is_executable(&self, path: Seq<char>) -> bool {
        false
    }

    open spec fn fs_canonicalize(&self, path: Seq<char>) -> Result<Seq<char>, Seq<char>> {
        Ok(path)
    }

    open spec fn fs_metadata(&self, path: Seq<char>) -> Result<Metadata, Seq<char>> {
        Ok(Metadata { is_file: false, is_executable: false })
    }

    open spec fn fs_read_dir(&self, dir: Seq<char>) -> Option<Seq<Seq<char>>> {
        None
    }

    fn path_exists(&self, path: &str) -> (r: bool) {
        false
    }

    fn is_file(&self, path: &str) -> (r: bool) {
        self.path_exists(path)
    }

    fn is_executable(&self, path: &str) -> (r: bool) {
        false
    }

    fn canonicalize(&self, path: &str) -> (r: Result<String, FsError>) {
        Ok(path.to_owned())
    }

    fn metadata(&self, path: &str) -> (r: Result<Metadata, FsError>) {
        Ok(Metadata { is_file: self.is_file(path), is_executable: false })
    }

    fn read_dir(&self, dir: &str) -> (r: Option<Vec<String>>) {
        None
    }
}

/// Whether a Unix permission mode lets anyone execute the file: one of the
/// execute bits of owner, group or others is set.
pub fn mode_is_executable(mode: u32) -> (r: bool)
    ensures
        r == (mode & 0o111u32 != 0),
{
    mode & 0o111u32 != 0
}

/// What `str::to_uppercase` gives for `s`: the Unicode upper case of each
/// character, which depends on `s` alone.
pub uninterp spec fn upper_name(s: Seq<char>) -> Seq<char>;

/// `s` in upper case, by `str::to_uppercase` (std). The contract only names
/// the result: it is `upper_name` of the argument.
#[verifier::external_body]
fn to_upper(s: &str) -> (r: String)
    ensures
        r@ == upper_name(s@),
{
    s.to_uppercase()
}

/// The extension list used when the host gives none.
pub open spec fn default_pathext() -> Seq<char> {
    ".COM;.EXE;.BAT;.CMD;.VBS;.VBE;.JS;.JSE;.WSF;.WSH;.MSC"@
}

/// The `;`-separated extension list in force: the given one, else the default.
pub open spec fn pathext_in_force(pathext: Option<Seq<char>>) -> Seq<char> {
    match pathext {
        Some(p) => p,
        None => default_pathext(),
    }
}

/// The extensions tried after a command's name on Windows: the entries of
/// `pathext` (the `PATHEXT` variable; the default list when it is unset),
/// separated by `;`, each in upper case, in order.
pub fn executable_extensions(pathext: Option<&str>) -> (r: Vec<String>)
    ensures
        names_of(r@) == split_on(
            pathext_in_force(
                match pathext {
                    Some(p) => Some(p@),
                    None => None,
                },
            ),
            ';',
        ).map_values(|e: Seq<char>| upper_name(e)),
{
    let list = match pathext {
        Some(p) => p,
        None => ".COM;.EXE;.BAT;.CMD;.VBS;.VBE;.JS;.JSE;.WSF;.WSH;.MSC",
    };
    let pieces = split_chars(&chars_of(list), ';');
    let ghost pv = pieces@.map_values(|v: Vec<char>| v@);
    let mut r: Vec<String> = Vec::new();
    let mut i: usize = 0;
    while i < pieces.len()
        invariant
            i <= pieces@.len(),
            pv == pieces@.map_values(|v: Vec<char>| v@),
            names_of(r@) == pv.take(i as int).map_values(|e: Seq<char>| upper_name(e)),
        decreases pieces.len() - i,
    {
        let piece = string_of(&pieces[i]);
        let up = to_upper(piece.as_str());
        let ghost before = r@;
        r.push(up);
        assert(names_of(r@) =~= pv.take(i + 1).map_values(|e: Seq<char>| upper_name(e))) by {
            assert(names_of(r@) =~= names_of(before).push(up@));
            assert(pv.take(i + 1) =~= pv.take(i as int).push(pv[i as int]));
        }
        i = i + 1;
    }
    assert(pv.take(pieces@.len() as int) =~= pv);
    r
}

} // verus!
