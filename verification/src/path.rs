//! An owned, mutable path held as text, whose edits are done by the standard
//! library's path type, with Unix path rules: `'/'` separates components and a path
//! that starts with it is absolute.

use vstd::prelude::*;

verus! {

/// The text of the path that `std::path::PathBuf::push` makes of `base` and `path`:
/// an absolute `path` replaces `base`; otherwise `path` is appended to `base`, after
/// a `'/'` when `base` is not empty and does not end with one.
pub open spec fn pushed(base: Seq<char>, path: Seq<char>) -> Seq<char> {
    if path.len() > 0 && path[0] == '/' {
        path
    } else if base.len() > 0 && base.last() != '/' {
        base + seq!['/'] + path
    } else {
        base + path
    }
}

/// The text of the parent of `path` as `std::path::Path::parent` finds it, which is
/// what `std::path::PathBuf::pop` truncates to; `None` when it has none.
pub uninterp spec fn parent(path: Seq<char>) -> Option<Seq<char>>;

/// The text of the path that `std::path::PathBuf::set_file_name` makes of `base`
/// and `name`.
pub uninterp spec fn with_file_name(base: Seq<char>, name: Seq<char>) -> Seq<char>;

/// The text of the path that `std::path::PathBuf::set_extension` makes of `base` and
/// `ext`, and whether it changed anything; `None` when `base` has no file name.
pub uninterp spec fn with_extension(base: Seq<char>, ext: Seq<char>) -> Option<Seq<char>>;

/// The text that pushing each of `paths` in turn onto `base` makes.
pub open spec fn pushed_all(base: Seq<char>, paths: Seq<Seq<char>>) -> Seq<char>
    decreases paths.len(),
{
    if paths.len() == 0 {
        base
    } else {
        pushed(pushed_all(base, paths.drop_last()), paths.last())
    }
}

/// The texts of `paths`.
pub open spec fn texts(paths: Seq<String>) -> Seq<Seq<char>> {
    paths.map_values(|p: String| p@)
}

/// Calls `std::path::PathBuf::push` on a path with text `base`; the result is
/// `pushed`, the Unix rule.
#[verifier::external_body]
fn std_push(base: &str, path: &str) -> (r: String)
    ensures
        r@ == pushed(base@, path@),
{
    let mut p = std::path::PathBuf::from(base);
    p.push(path);
    p.to_string_lossy().into_owned()
}

/// Calls `std::path::PathBuf::pop` on a path with text `base`: it returns `false`
/// and leaves the path alone when there is no parent, else truncates the path to
/// its parent and returns `true`; the parent is named `parent`. The empty path has
/// no parent.
#[verifier::external_body]
fn std_pop(base: &str) -> (r: Option<String>)
    ensures
        base@.len() == 0 ==> r.is_none(),
        match r {
            Some(s) => parent(base@) == Some(s@),
            None => parent(base@).is_none(),
        },
{
    let mut p = std::path::PathBuf::from(base);
    if p.pop() {
        Some(p.to_string_lossy().into_owned())
    } else {
        None
    }
}

/// Calls `std::path::PathBuf::set_file_name` on a path with text `base`; the result
/// is named `with_file_name`.
#[verifier::external_body]
fn std_set_file_name(base: &str, name: &str) -> (r: String)
    ensures
        r@ == with_file_name(base@, name@),
{
    let mut p = std::path::PathBuf::from(base);
    p.set_file_name(name);
    p.to_string_lossy().into_owned()
}

/// Where the last component of the path text `s` starts: just after its last
/// `'/'`, or at `0` when it has none.
pub open spec fn name_start(s: Seq<char>) -> int
    decreases s.len(),
{
    if s.len() == 0 {
        0
    } else if s.last() == '/' {
        s.len() as int
    } else {
        name_start(s.drop_last())
    }
}

/// The index of the last `'.'` in `s`, if it has one.
pub open spec fn last_dot(s: Seq<char>) -> Option<int>
    decreases s.len(),
{
    if s.len() == 0 {
        None
    } else if s.last() == '.' {
        Some(s.len() - 1)
    } else {
        last_dot(s.drop_last())
    }
}

/// The length of the stem of the file name `name`: the part before its extension,
/// which is what follows the last `'.'`, unless that `'.'` is the first character
/// or there is none, in which case there is no extension.
pub open spec fn stem_len(name: Seq<char>) -> int {
    match last_dot(name) {
        Some(i) => if i == 0 {
            name.len() as int
        } else {
            i
        },
        None => name.len() as int,
    }
}

/// Whether the last component `name` names a file: it is not empty, `"."` or `".."`.
pub open spec fn plain_name(name: Seq<char>) -> bool {
    &&& name.len() > 0
    &&& name != seq!['.']
    &&& name != seq!['.', '.']
}

/// The text of `base`, whose last component names a file, with the extension of
/// that file name set to `ext`: everything up to the end of the stem, then `'.'` and
/// `ext` unless `ext` is empty.
pub open spec fn extension_set(base: Seq<char>, ext: Seq<char>) -> Seq<char> {
    let start = name_start(base);
    base.take(start + stem_len(base.skip(start))) + if ext.len() > 0 {
        seq!['.'] + ext
    } else {
        Seq::<char>::empty()
    }
}

/// Calls `std::path::PathBuf::set_extension` on a path with text `base`: it returns
/// `false` and leaves the path alone when there is no file name, else sets the
/// extension and returns `true`; the result is named `with_extension`. When the
/// last component names a file, the standard library documents the result: the
/// file name's extension (what follows its last `'.'`, unless that is its first
/// character) is replaced by `ext`, or added, or removed when `ext` is empty, and
/// that is `extension_set`. It panics
/// when the extension holds the path separator `'/'`, which `requires` leaves
/// out.
#[verifier::external_body]
fn std_set_extension(base: &str, ext: &str) -> (r: Option<String>)
    requires
        !ext@.contains('/'),
    ensures
        match r {
            Some(s) => with_extension(base@, ext@) == Some(s@),
            None => with_extension(base@, ext@).is_none(),
        },
        plain_name(base@.skip(name_start(base@))) ==> r.is_some() && r.unwrap()@ == extension_set(base@, ext@),
{
    let mut p = std::path::PathBuf::from(base);
    if p.set_extension(ext) {
        Some(p.to_string_lossy().into_owned())
    } else {
        None
    }
}

/// An owned, mutable path.
#[derive(Debug)]
pub struct PathBuf {
    inner: String,
}

impl View for PathBuf {
    type V = Seq<char>;

    /// The path's text.
    closed spec fn view(&self) -> Seq<char> {
        self.inner@
    }
}

impl PathBuf {
    /// An empty path.
    pub fn new() -> (p: PathBuf)
        ensures
            p@.len() == 0,
    {
        PathBuf { inner: String::new() }
    }

    /// The path with text `s`.
    pub fn from_string(s: String) -> (p: PathBuf)
        ensures
            p@ == s@,
    {
        PathBuf { inner: s }
    }

    /// The path's text.
    pub fn as_path(&self) -> (s: &str)
        ensures
            s@ == self@,
    {
        self.inner.as_str()
    }

    /// The path's text, taken out of the path.
    pub fn into_string(self) -> (s: String)
        ensures
            s@ == self@,
    {
        self.inner
    }

    /// Extends the path with `path`, as `std::path::PathBuf::push` does: an absolute
    /// `path` replaces the whole path.
    pub fn push(&mut self, path: &str)
        ensures
            final(self)@ == pushed(old(self)@, path@),
    {
        self.inner = std_push(self.inner.as_str(), path);
    }

    /// Pushes each of `paths` in turn, in order, as a stream of paths extends the
    /// path.
    pub fn stream_extend(&mut self, paths: Vec<String>)
        ensures
            final(self)@ == pushed_all(old(self)@, texts(paths@)),
    {
        let mut i: usize = 0;
        while i < paths.len()
            invariant
                i <= paths@.len(),
                self@ == pushed_all(old(self)@, texts(paths@).take(i as int)),
            decreases paths@.len() - i,
        {
            proof {
                assert(texts(paths@).take(i + 1).drop_last() =~= texts(paths@).take(i as int));
            }
            self.push(paths[i].as_str());
            i = i + 1;
        }
        assert(texts(paths@).take(i as int) =~= texts(paths@));
    }

    /// The path made by pushing each of `paths` in turn onto an empty path, as a
    /// stream of paths is collected into one.
    pub fn from_stream(paths: Vec<String>) -> (p: PathBuf)
        ensures
            p@ == pushed_all(Seq::empty(), texts(paths@)),
    {
        let mut p = PathBuf::new();
        proof {
            assert(p@ =~= Seq::<char>::empty());
        }
        p.stream_extend(paths);
        p
    }

    /// Truncates the path to its parent and returns `true`; returns `false` and
    /// leaves the path alone when it has no parent.
    pub fn pop(&mut self) -> (popped: bool)
        ensures
            popped == parent(old(self)@).is_some(),
            old(self)@.len() == 0 ==> !popped,
            popped ==> final(self)@ == parent(old(self)@).unwrap(),
            !popped ==> final(self)@ == old(self)@,
    {
        match std_pop(self.inner.as_str()) {
            Some(s) => {
                self.inner = s;
                true
            },
            None => false,
        }
    }

    /// Replaces the path's last component with `file_name`, or adds it when there is
    /// none.
    pub fn set_file_name(&mut self, file_name: &str)
        ensures
            final(self)@ == with_file_name(old(self)@, file_name@),
    {
        self.inner = std_set_file_name(self.inner.as_str(), file_name);
    }

    /// Sets the extension of the path's file name to `extension` and returns `true`;
    /// returns `false` and leaves the path alone when it has no file name. The
    /// extension holds no path separator; the standard library panics on one.
    pub fn set_extension(&mut self, extension: &str) -> (changed: bool)
        requires
            !extension@.contains('/'),
        ensures
            changed == with_extension(old(self)@, extension@).is_some(),
            changed ==> final(self)@ == with_extension(old(self)@, extension@).unwrap(),
            !changed ==> final(self)@ == old(self)@,
            plain_name(old(self)@.skip(name_start(old(self)@))) ==> changed && final(self)@
                == extension_set(old(self)@, extension@),
    {
        match std_set_extension(self.inner.as_str(), extension) {
            Some(s) => {
                self.inner = s;
                true
            },
            None => false,
        }
    }
}

/// Extending a path with the paths `a` and then with the paths `b` gives the same
/// path as extending it once with `a` followed by `b`.
pub proof fn extend_twice_is_extend_once(base: Seq<char>, a: Seq<Seq<char>>, b: Seq<Seq<char>>)
    ensures
        pushed_all(pushed_all(base, a), b) == pushed_all(base, a + b),
    decreases b.len(),
{
    if b.len() == 0 {
        assert(a + b =~= a);
    } else {
        extend_twice_is_extend_once(base, a, b.drop_last());
        assert((a + b).drop_last() =~= a + b.drop_last());
        assert((a + b).last() == b.last());
    }
}

/// Collecting paths pushes each in turn onto the empty path: one path pushed onto a
/// path is `push` itself; collecting a single path gives that path unchanged,
/// relative or absolute; and collecting more pushes the last one onto what the
/// others gave.
pub proof fn collect_pushes_each_path(base: Seq<char>, paths: Seq<Seq<char>>, p: Seq<char>)
    ensures
        pushed_all(base, seq![p]) == pushed(base, p),
        pushed_all(Seq::<char>::empty(), seq![p]) == p,
        pushed_all(base, paths.push(p)) == pushed(pushed_all(base, paths), p),
        pushed_all(base, Seq::<Seq<char>>::empty()) == base,
        !(p.len() > 0 && p[0] == '/') && base.len() > 0 && base.last() != '/' ==> pushed(base, p)
            == base + seq!['/'] + p,
{
    assert(seq![p].drop_last() =~= Seq::<Seq<char>>::empty());
    assert(seq![p].last() == p);
    assert(pushed_all(base, seq![p].drop_last()) == base);
    assert(pushed_all(Seq::<char>::empty(), seq![p].drop_last()) == Seq::<char>::empty());
    assert(paths.push(p).drop_last() =~= paths);
    assert(Seq::<char>::empty() + p =~= p);
}

proof fn lemma_name_start_after_sep(p: Seq<char>, q: Seq<char>)
    requires
        !q.contains('/'),
    ensures
        name_start(p.push('/') + q) == p.len() + 1,
    decreases q.len(),
{
    let s = p.push('/') + q;
    if q.len() == 0 {
        assert(s =~= p.push('/'));
    } else {
        assert(s.last() == q.last());
        assert(q.last() != '/') by {
            assert(q.contains(q.last()) ==> q.last() != '/');
            assert(q[q.len() - 1] == q.last());
        }
        assert(s.drop_last() =~= p.push('/') + q.drop_last());
        assert(!q.drop_last().contains('/')) by {
            if q.drop_last().contains('/') {
                let i = choose|i: int| 0 <= i < q.drop_last().len() && q.drop_last()[i] == '/';
                assert(q[i] == '/');
            }
        }
        lemma_name_start_after_sep(p, q.drop_last());
    }
}

proof fn lemma_last_dot_none(q: Seq<char>)
    requires
        !q.contains('.'),
    ensures
        last_dot(q).is_none(),
    decreases q.len(),
{
    if q.len() > 0 {
        assert(q[q.len() - 1] != '.');
        assert(!q.drop_last().contains('.')) by {
            if q.drop_last().contains('.') {
                let i = choose|i: int| 0 <= i < q.drop_last().len() && q.drop_last()[i] == '.';
                assert(q[i] == '.');
            }
        }
        lemma_last_dot_none(q.drop_last());
    }
}

proof fn lemma_last_dot_after(a: Seq<char>, e: Seq<char>)
    requires
        !e.contains('.'),
    ensures
        last_dot(a.push('.') + e) == Some(a.len() as int),
    decreases e.len(),
{
    let s = a.push('.') + e;
    if e.len() == 0 {
        assert(s =~= a.push('.'));
    } else {
        assert(s.last() == e.last());
        assert(e[e.len() - 1] != '.');
        assert(s.drop_last() =~= a.push('.') + e.drop_last());
        assert(!e.drop_last().contains('.')) by {
            if e.drop_last().contains('.') {
                let i = choose|i: int| 0 <= i < e.drop_last().len() && e.drop_last()[i] == '.';
                assert(e[i] == '.');
            }
        }
        lemma_last_dot_after(a, e.drop_last());
    }
}

/// Setting the extension replaces only the last one: for a path `dir/stem.e`, whose
/// extension `e` holds no `'.'` (the stem may hold some), the result is
/// `dir/stem.x`, or `dir/stem` when `x` is empty; and a file name without a `'.'`
/// gets `.x` added.
pub proof fn set_extension_replaces_the_last_extension(
    dir: Seq<char>,
    stem: Seq<char>,
    e: Seq<char>,
    name: Seq<char>,
    x: Seq<char>,
)
    requires
        stem.len() > 0,
        stem != seq!['.'],
        !stem.contains('/'),
        !e.contains('/'),
        !e.contains('.'),
    ensures
        plain_name((dir.push('/') + stem.push('.') + e).skip(name_start(dir.push('/') + stem.push('.') + e))),
        extension_set(dir.push('/') + stem.push('.') + e, x) == dir.push('/') + stem + if x.len() > 0 {
            seq!['.'] + x
        } else {
            Seq::<char>::empty()
        },
        name.len() > 0 && !name.contains('.') && !name.contains('/') ==> {
            &&& plain_name((dir.push('/') + name).skip(name_start(dir.push('/') + name)))
            &&& extension_set(dir.push('/') + name, x) == dir.push('/') + name + if x.len() > 0 {
                seq!['.'] + x
            } else {
                Seq::<char>::empty()
            }
        },
{
    let file = stem.push('.') + e;
    let base = dir.push('/') + file;
    assert(dir.push('/') + stem.push('.') + e =~= base);
    assert(name_start(dir.push('/') + stem.push('.') + e) == name_start(base));
    assert(!file.contains('/')) by {
        if file.contains('/') {
            let i = choose|i: int| 0 <= i < file.len() && file[i] == '/';
            if i < stem.len() {
                assert(stem[i] == '/');
            } else if i > stem.len() {
                assert(e[i - stem.len() - 1] == '/');
            }
        }
    }
    lemma_name_start_after_sep(dir, file);
    assert(base.skip(dir.len() + 1int) =~= file);
    lemma_last_dot_after(stem, e);
    assert(stem_len(file) == stem.len());
    assert(file.len() >= 2);
    assert(base.take(dir.len() + 1int + stem.len()) =~= dir.push('/') + stem);
    assert(file != seq!['.', '.']) by {
        if file == seq!['.', '.'] {
            assert(stem.len() == 1);
            assert(stem[0] == file[0]);
            assert(stem =~= seq!['.']);
        }
    }
    assert(file != seq!['.']) by {
        assert(file.len() >= 2);
    }
    if name.len() > 0 && !name.contains('.') && !name.contains('/') {
        let b2 = dir.push('/') + name;
        lemma_name_start_after_sep(dir, name);
        assert(b2.skip(dir.len() + 1int) =~= name);
        lemma_last_dot_none(name);
        assert(b2.take(dir.len() + 1int + name.len()) =~= b2);
        assert(name != seq!['.']) by {
            if name == seq!['.'] {
                assert(name[0] == '.');
            }
        }
        assert(name != seq!['.', '.']) by {
            if name == seq!['.', '.'] {
                assert(name[0] == '.');
            }
        }
    }
}

} // verus!
