use vstd::prelude::*;

verus! {

/// `s` from index `i` on, with each pair `//` (taken left to right, without
/// overlap) replaced by a single `/`.
pub open spec fn collapse_from(s: Seq<char>, i: int) -> Seq<char>
    decreases s.len() - i,
{
    if i < 0 || i >= s.len() {
        Seq::empty()
    } else if i + 1 < s.len() && s[i] == '/' && s[i + 1] == '/' {
        seq!['/'] + collapse_from(s, i + 2)
    } else {
        seq![s[i]] + collapse_from(s, i + 1)
    }
}

/// `s` with every `//` replaced by `/`, as `str::replace("//", "/")` does.
pub open spec fn collapse(s: Seq<char>) -> Seq<char> {
    collapse_from(s, 0)
}

/// The cache key of the entry `name` inside a directory keyed `prefix`.
pub open spec fn key_of(prefix: Seq<char>, name: Seq<char>) -> Seq<char> {
    collapse(prefix + seq!['/'] + name)
}

/// The cache key of an entry at the end of a chain of directory names, as
/// the directory walk builds it from the root (whose prefix is empty).
pub open spec fn key_of_path(names: Seq<Seq<char>>) -> Seq<char>
    decreases names.len(),
{
    if names.len() == 0 {
        Seq::empty()
    } else {
        key_of(key_of_path(names.drop_last()), names.last())
    }
}

/// Builds the cache key of the entry `name` inside a directory keyed `prefix`.
pub fn cache_key(prefix: &str, name: &str) -> (r: String)
    ensures
        r@ == key_of(prefix@, name@),
{
    let joined = String::from_str(prefix).concat("/").concat(name);
    proof {
        reveal_strlit("/");
    }
    assert(joined@ =~= prefix@ + seq!['/'] + name@);
    let s = joined.as_str();
    let n = s.unicode_len();
    let mut out = String::new();
    let mut i: usize = 0;
    while i < n
        invariant
            n == s@.len(),
            i <= n,
            out@ + collapse_from(s@, i as int) == collapse(s@),
        decreases n - i,
    {
        if i + 1 < n && s.get_char(i) == '/' && s.get_char(i + 1) == '/' {
            let ghost before = out@;
            out.append("/");
            proof {
                reveal_strlit("/");
            }
            assert("/"@ =~= seq!['/']);
            assert(collapse_from(s@, i as int) == seq!['/'] + collapse_from(s@, i + 2));
            assert(out@ + collapse_from(s@, i + 2) =~= before + collapse_from(s@, i as int));
            i = i + 2;
        } else {
            out.append(s.substring_char(i, i + 1));
            assert(out@ + collapse_from(s@, i + 1) =~= collapse(s@));
            i = i + 1;
        }
    }
    assert(collapse_from(s@, i as int) =~= Seq::<char>::empty());
    assert(out@ =~= collapse(s@));
    out
}


/// The map built by inserting `entries` in order: a later entry with the same
/// key replaces an earlier one.
pub open spec fn map_of(entries: Seq<(Seq<char>, Seq<char>)>) -> Map<Seq<char>, Seq<char>>
    decreases entries.len(),
{
    if entries.len() == 0 {
        Map::empty()
    } else {
        map_of(entries.drop_last()).insert(entries.last().0, entries.last().1)
    }
}

/// The (key, contents) views of `files`.
pub open spec fn entry_views(files: Seq<(String, String)>) -> Seq<(Seq<char>, Seq<char>)> {
    files.map_values(|e: (String, String)| (e.0@, e.1@))
}

/// The served files, held in memory from a mapping of URL path to contents.
/// It is loaded once and read only after that.
pub struct FileCache {
    files: Vec<(String, String)>,
    initialized: bool,
    contents: Ghost<Map<Seq<char>, Seq<char>>>,
}

impl View for FileCache {
    type V = Map<Seq<char>, Seq<char>>;

    closed spec fn view(&self) -> Map<Seq<char>, Seq<char>> {
        self.contents@
    }
}

impl FileCache {
    /// Whether the cache has been loaded.
    pub closed spec fn is_initialized(&self) -> bool {
        self.initialized
    }

    /// The stored pairs agree with the map, without a repeated key, and
    /// nothing is stored before loading.
    pub closed spec fn wf(&self) -> bool {
        &&& forall|i: int|
            0 <= i < self.files.len() ==> {
                &&& #[trigger] self.contents@.contains_key(self.files@[i].0@)
                &&& self.contents@[self.files@[i].0@] == self.files@[i].1@
            }
        &&& forall|k: Seq<char>|
            #[trigger] self.contents@.contains_key(k) ==> exists|i: int|
                0 <= i < self.files.len() && #[trigger] self.files@[i].0@ == k
        &&& forall|i: int, j: int|
            0 <= i < j < self.files.len() ==> self.files@[i].0@ != self.files@[j].0@
        &&& !self.initialized ==> self.contents@ =~= Map::empty()
    }

    /// An empty cache that has not been loaded yet.
    pub fn new() -> (r: FileCache)
        ensures
            r.wf(),
            !r.is_initialized(),
            r@ == Map::<Seq<char>, Seq<char>>::empty(),
    {
        FileCache { files: Vec::new(), initialized: false, contents: Ghost(Map::empty()) }
    }

    fn find(&self, path: &str) -> (r: Option<usize>)
        requires
            self.wf(),
        ensures
            match r {
                Some(i) => i < self.files.len() && self.files@[i as int].0@ == path@,
                None => !self@.contains_key(path@),
            },
    {
        let mut i: usize = 0;
        while i < self.files.len()
            invariant
                self.wf(),
                i <= self.files.len(),
                forall|j: int| 0 <= j < i ==> self.files@[j].0@ != path@,
            decreases self.files.len() - i,
        {
            if same_text(self.files[i].0.as_str(), path) {
                return Some(i);
            }
            i = i + 1;
        }
        None
    }

    fn insert(&mut self, key: String, value: String)
        requires
            old(self).wf(),
            old(self).is_initialized(),
        ensures
            final(self).wf(),
            final(self).is_initialized(),
            final(self)@ == old(self)@.insert(key@, value@),
    {
        let ghost k = key@;
        let ghost v = value@;
        let ghost before = self.files@;
        let ghost at: int;
        match self.find(key.as_str()) {
            Some(i) => {
                self.files.set(i, (key, value));
                proof {
                    at = i as int;
                }
            },
            None => {
                self.files.push((key, value));
                proof {
                    at = before.len() as int;
                }
            },
        }
        assert(self.files@[at].0@ == k);
        let ghost old_contents = self.contents@;
        self.contents = Ghost(self.contents@.insert(k, v));
        assert forall|k2: Seq<char>| #[trigger] self.contents@.contains_key(k2) implies exists|i: int|
            0 <= i < self.files.len() && #[trigger] self.files@[i].0@ == k2 by {
            if k2 == k {
                assert(self.files@[at].0@ == k2);
            } else {
                assert(old_contents.contains_key(k2));
                let w = choose|i: int| 0 <= i < before.len() && #[trigger] before[i].0@ == k2;
                assert(self.files@[w].0@ == k2);
            }
        }
    }

    /// Whether the cache has been loaded.
    pub fn loaded(&self) -> (r: bool)
        ensures
            r == self.is_initialized(),
    {
        self.initialized
    }

    /// Loads the cache from `files`, pairs of URL path and contents, inserted
    /// in order. The cache is loaded once only: a second load is a programming
    /// error, which callers rule out by testing `loaded` first.
    pub fn init(&mut self, files: Vec<(String, String)>)
        requires
            old(self).wf(),
            !old(self).is_initialized(),
        ensures
            final(self).wf(),
            final(self).is_initialized(),
            final(self)@ == map_of(entry_views(files@)),
    {
        self.initialized = true;
        let ghost all = entry_views(files@);
        assert(map_of(all.subrange(0, 0)) =~= self@);
        let mut i: usize = 0;
        let n = files.len();
        while i < n
            invariant
                self.wf(),
                self.is_initialized(),
                n == files.len(),
                i <= n,
                all == entry_views(files@),
                self@ == map_of(all.subrange(0, i as int)),
            decreases n - i,
        {
            let key = files[i].0.clone();
            let value = files[i].1.clone();
            self.insert(key, value);
            assert(all.subrange(0, i + 1).drop_last() =~= all.subrange(0, i as int));
            i = i + 1;
        }
        assert(all.subrange(0, n as int) =~= all);
    }

    /// The contents cached under `path`, if any.
    pub fn get(&self, path: &str) -> (r: Option<&str>)
        requires
            self.wf(),
        ensures
            match r {
                Some(v) => self@.contains_key(path@) && v@ == self@[path@],
                None => !self@.contains_key(path@),
            },
    {
        match self.find(path) {
            Some(i) => {
                assert(self.contents@.contains_key(self.files@[i as int].0@));
                Some(self.files[i].1.as_str())
            },
            None => None,
        }
    }
}

/// Whether two texts hold the same characters.
pub fn same_text(a: &str, b: &str) -> (r: bool)
    ensures
        r == (a@ == b@),
{
    let n = a.unicode_len();
    if n != b.unicode_len() {
        return false;
    }
    let mut i: usize = 0;
    while i < n
        invariant
            n == a@.len(),
            n == b@.len(),
            i <= n,
            forall|j: int| 0 <= j < i ==> a@[j] == b@[j],
        decreases n - i,
    {
        if a.get_char(i) != b.get_char(i) {
            return false;
        }
        i = i + 1;
    }
    assert(a@ =~= b@);
    true
}


/// After loading, the contents of an entry are found under its key, unless a
/// later entry has the same key.
pub proof fn lemma_loaded_entry_found(entries: Seq<(Seq<char>, Seq<char>)>, i: int)
    requires
        0 <= i < entries.len(),
        forall|j: int| i < j < entries.len() ==> (#[trigger] entries[j]).0 != entries[i].0,
    ensures
        map_of(entries).contains_key(entries[i].0),
        map_of(entries)[entries[i].0] == entries[i].1,
    decreases entries.len(),
{
    if i < entries.len() - 1 {
        let rest = entries.drop_last();
        assert forall|j: int| i < j < rest.len() implies (#[trigger] rest[j]).0 != rest[i].0 by {
            assert(rest[j] == entries[j]);
        }
        lemma_loaded_entry_found(rest, i);
        assert(entries[entries.len() - 1].0 != entries[i].0);
    }
}

/// After loading, a key that no entry has is not found.
pub proof fn lemma_absent_key_not_found(entries: Seq<(Seq<char>, Seq<char>)>, k: Seq<char>)
    requires
        forall|j: int| 0 <= j < entries.len() ==> (#[trigger] entries[j]).0 != k,
    ensures
        !map_of(entries).contains_key(k),
    decreases entries.len(),
{
    if entries.len() > 0 {
        let rest = entries.drop_last();
        assert forall|j: int| 0 <= j < rest.len() implies (#[trigger] rest[j]).0 != k by {
            assert(rest[j] == entries[j]);
        }
        lemma_absent_key_not_found(rest, k);
        assert(entries[entries.len() - 1].0 != k);
    }
}

/// No two slashes stand side by side in `s`.
pub open spec fn no_double_slash(s: Seq<char>) -> bool {
    forall|j: int| 0 <= j < s.len() - 1 ==> !(#[trigger] s[j] == '/' && s[j + 1] == '/')
}

/// A plain name of a directory entry: not empty, without a slash.
pub open spec fn is_plain_name(n: Seq<char>) -> bool {
    n.len() > 0 && forall|j: int| 0 <= j < n.len() ==> #[trigger] n[j] != '/'
}

/// The names joined, each after a slash: `/a/b/c`.
pub open spec fn slash_path(names: Seq<Seq<char>>) -> Seq<char>
    decreases names.len(),
{
    if names.len() == 0 {
        Seq::empty()
    } else {
        slash_path(names.drop_last()) + seq!['/'] + names.last()
    }
}

proof fn lemma_collapse_plain(s: Seq<char>, i: int)
    requires
        0 <= i <= s.len(),
        no_double_slash(s),
    ensures
        collapse_from(s, i) == s.subrange(i, s.len() as int),
    decreases s.len() - i,
{
    if i < s.len() {
        lemma_collapse_plain(s, i + 1);
        if i + 1 < s.len() {
            assert(!(s[i] == '/' && s[i + 1] == '/'));
        }
        assert(seq![s[i]] + s.subrange(i + 1, s.len() as int) =~= s.subrange(i, s.len() as int));
    } else {
        assert(s.subrange(i, s.len() as int) =~= Seq::<char>::empty());
    }
}

proof fn lemma_slash_path_shape(names: Seq<Seq<char>>)
    requires
        forall|k: int| 0 <= k < names.len() ==> is_plain_name(#[trigger] names[k]),
    ensures
        no_double_slash(slash_path(names)),
        slash_path(names).len() > 0 ==> slash_path(names).last() != '/',
    decreases names.len(),
{
    if names.len() > 0 {
        let front = names.drop_last();
        assert forall|k: int| 0 <= k < front.len() implies is_plain_name(#[trigger] front[k]) by {
            assert(front[k] == names[k]);
        }
        lemma_slash_path_shape(front);
        let p = slash_path(front);
        let n = names.last();
        assert(is_plain_name(names[names.len() - 1]));
        let s = slash_path(names);
        assert(s == p + seq!['/'] + n);
        assert forall|j: int| 0 <= j < s.len() - 1 implies !(#[trigger] s[j] == '/' && s[j + 1]
            == '/') by {
            if j + 1 < p.len() {
                assert(s[j] == p[j] && s[j + 1] == p[j + 1]);
            } else if j + 1 == p.len() {
                assert(s[j] == p.last());
            } else if j == p.len() {
                assert(s[j + 1] == n[0]);
            } else {
                assert(s[j] == n[j - p.len() - 1]);
            }
        }
        assert(s.last() == n[n.len() - 1]);
    }
}

/// The directory walk keys a file reached through plain names `a`, `b`, `c`
/// as `/a/b/c`: a slash before each name, and no doubled slash.
pub proof fn lemma_walk_key(names: Seq<Seq<char>>)
    requires
        forall|k: int| 0 <= k < names.len() ==> is_plain_name(#[trigger] names[k]),
    ensures
        key_of_path(names) == slash_path(names),
    decreases names.len(),
{
    if names.len() > 0 {
        let front = names.drop_last();
        assert forall|k: int| 0 <= k < front.len() implies is_plain_name(#[trigger] front[k]) by {
            assert(front[k] == names[k]);
        }
        lemma_walk_key(front);
        lemma_slash_path_shape(names);
        let s = slash_path(names);
        lemma_collapse_plain(s, 0);
        assert(s.subrange(0, s.len() as int) =~= s);
    }
}

/// A file that the walk reached through plain names `a`, `b`, `c` is found,
/// after loading, under `/a/b/c` with exactly its contents, unless a later
/// pair has the same key; a path that no pair has is not found.
pub proof fn lemma_walked_file_found(
    entries: Seq<(Seq<char>, Seq<char>)>,
    names: Seq<Seq<char>>,
    i: int,
    absent: Seq<char>,
)
    requires
        0 <= i < entries.len(),
        forall|k: int| 0 <= k < names.len() ==> is_plain_name(#[trigger] names[k]),
        entries[i].0 == key_of_path(names),
        forall|j: int| i < j < entries.len() ==> (#[trigger] entries[j]).0 != entries[i].0,
        forall|j: int| 0 <= j < entries.len() ==> (#[trigger] entries[j]).0 != absent,
    ensures
        map_of(entries).contains_key(slash_path(names)),
        map_of(entries)[slash_path(names)] == entries[i].1,
        !map_of(entries).contains_key(absent),
{
    lemma_walk_key(names);
    lemma_loaded_entry_found(entries, i);
    lemma_absent_key_not_found(entries, absent);
}

} // verus!
