//! The switches that steer a search, looked up by name.
use vstd::prelude::*;
use vstd::hash_map::StringHashMap;
use crate::filesystem::names_of;

verus! {

/// How the host writes a search path and names executables: the character
/// that separates the entries of a search path, and, where executables are
/// named with an extension, the extensions to try after a command's name,
/// in order. Paths themselves are read and joined by Unix rules whatever the
/// platform (see `join_path`).
pub struct Platform {
    pub separator: char,
    pub extensions: Option<Seq<Seq<char>>>,
}

/// Named boolean switches (`all`, `-a`, `regex`, `skip_dot`, `skip_tilde`,
/// `show_dot`, `show_tilde`), the home directory used by `show_tilde`, and the
/// platform's search path separator and executable extensions.
pub struct Options {
    flags: StringHashMap<bool>,
    home: Option<String>,
    separator: char,
    extensions: Option<Vec<String>>,
}

impl View for Options {
    type V = Map<Seq<char>, bool>;

    closed spec fn view(&self) -> Map<Seq<char>, bool> {
        self.flags@
    }
}

impl Options {
    /// The home directory that `show_tilde` abbreviates, if one is known.
    pub closed spec fn home_dir(&self) -> Option<Seq<char>> {
        match self.home {
            Some(h) => Some(h@),
            None => None,
        }
    }

    /// The search path separator and the executable extensions in use.
    pub closed spec fn platform(&self) -> Platform {
        Platform {
            separator: self.separator,
            extensions: match self.extensions {
                Some(e) => Some(names_of(e@)),
                None => None,
            },
        }
    }

    /// No switch set and no home directory; search path entries are
    /// separated by `:` and commands are looked for under their own name.
    pub fn new() -> (r: Options)
        ensures
            r@ == Map::<Seq<char>, bool>::empty(),
            r.home_dir() is None,
            r.platform() == (Platform { separator: ':', extensions: None }),
    {
        Options { flags: StringHashMap::new(), home: None, separator: ':', extensions: None }
    }

    /// Sets the character that separates search path entries (`;` on
    /// Windows).
    pub fn set_path_separator(&mut self, separator: char)
        ensures
            final(self)@ == old(self)@,
            final(self).home_dir() == old(self).home_dir(),
            final(self).platform() == (Platform { separator, ..old(self).platform() }),
    {
        self.separator = separator;
    }

    /// Sets the extensions tried after a command's name, in order (`None`:
    /// the name alone is tried).
    pub fn set_extensions(&mut self, extensions: Option<Vec<String>>)
        ensures
            final(self)@ == old(self)@,
            final(self).home_dir() == old(self).home_dir(),
            final(self).platform() == (Platform {
                extensions: match extensions {
                    Some(e) => Some(names_of(e@)),
                    None => None,
                },
                ..old(self).platform()
            }),
    {
        self.extensions = extensions;
    }

    /// The character that separates search path entries.
    pub fn path_separator(&self) -> (r: char)
        ensures
            r == self.platform().separator,
    {
        self.separator
    }

    /// The extensions tried after a command's name, if any.
    pub fn extensions(&self) -> (r: Option<&Vec<String>>)
        ensures
            match r {
                Some(e) => self.platform().extensions == Some(names_of(e@)),
                None => self.platform().extensions is None,
            },
    {
        match &self.extensions {
            Some(e) => Some(e),
            None => None,
        }
    }

    /// Sets switch `key` to `value`.
    pub fn insert(&mut self, key: String, value: bool)
        ensures
            final(self)@ == old(self)@.insert(key@, value),
            final(self).home_dir() == old(self).home_dir(),
            final(self).platform() == old(self).platform(),
    {
        self.flags.insert(key, value);
    }

    /// The value of switch `key`, if it was set.
    pub fn get(&self, key: &str) -> (r: Option<bool>)
        ensures
            r == (if self@.contains_key(key@) {
                Some(self@[key@])
            } else {
                None
            }),
    {
        match self.flags.get(key) {
            Some(v) => Some(*v),
            None => None,
        }
    }

    /// Unsets every switch; the home directory and the platform stay.
    pub fn clear(&mut self)
        ensures
            final(self)@ == Map::<Seq<char>, bool>::empty(),
            final(self).home_dir() == old(self).home_dir(),
            final(self).platform() == old(self).platform(),
    {
        self.flags.clear();
    }

    /// Records the home directory (`None` when it is unknown).
    pub fn set_home(&mut self, home: Option<String>)
        ensures
            final(self)@ == old(self)@,
            final(self).platform() == old(self).platform(),
            final(self).home_dir() == (match home {
                Some(h) => Some(h@),
                None => None::<Seq<char>>,
            }),
    {
        self.home = home;
    }

    /// The recorded home directory.
    pub fn home(&self) -> (r: Option<&str>)
        ensures
            match r {
                Some(h) => self.home_dir() == Some(h@),
                None => self.home_dir() is None,
            },
    {
        match &self.home {
            Some(h) => Some(h.as_str()),
            None => None,
        }
    }
}

/// The first of `keys` that is set decides: the switch is on when its value
/// equals `expected`; when none is set the answer is `false`.
pub open spec fn option_matches(m: Map<Seq<char>, bool>, keys: Seq<Seq<char>>, expected: bool) -> bool
    decreases keys.len(),
{
    if keys.len() == 0 {
        false
    } else if m.contains_key(keys[0]) {
        m[keys[0]] == expected
    } else {
        option_matches(m, keys.drop_first(), expected)
    }
}

/// The views of a list of names.
pub open spec fn names_view(keys: Seq<&str>) -> Seq<Seq<char>> {
    keys.map_values(|k: &str| k@)
}

/// Looks `keys` up in order; the first one present decides whether its value
/// is `expected`. `false` when none is present.
pub fn check_option(options: &Options, keys: Vec<&str>, expected: bool) -> (r: bool)
    ensures
        r == option_matches(options@, names_view(keys@), expected),
{
    let mut i: usize = 0;
    assert(names_view(keys@).skip(0) =~= names_view(keys@));
    while i < keys.len()
        invariant
            i <= keys@.len(),
            option_matches(options@, names_view(keys@), expected) == option_matches(
                options@,
                names_view(keys@).skip(i as int),
                expected,
            ),
        decreases keys.len() - i,
    {
        let ghost rest = names_view(keys@).skip(i as int);
        assert(rest[0] == keys@[i as int]@);
        assert(rest.drop_first() =~= names_view(keys@).skip(i + 1));
        if let Some(value) = options.get(keys[i]) {
            return value == expected;
        }
        i = i + 1;
    }
    false
}

} // verus!
