use vstd::prelude::*;
use crate::file::File;
use crate::glob::{glob_matches, parse, Pattern, PatternError, Token};
use crate::path::{components, path_components, path_eq, same_components};

verus! {

broadcast use vstd::std_specs::vec::group_vec_axioms;

/// A directory of the tree: its path relative to the root (empty for the
/// root), its files and its sub-directories, in their stored order.
pub struct Dir {
    pub path: String,
    pub files: Vec<File>,
    pub dirs: Vec<Dir>,
}

/// A file or a directory of the tree, as a search yields it.
pub enum DirEntry<'a> {
    File(&'a File),
    Dir(&'a Dir),
}

impl<'a> DirEntry<'a> {
    /// The entry's path relative to the root.
    pub fn path(&self) -> (r: &'a str)
        ensures
            r@ == entry_path(*self),
    {
        match self {
            DirEntry::File(f) => f.path.as_str(),
            DirEntry::Dir(d) => d.path.as_str(),
        }
    }
}

/// The path of an entry.
pub open spec fn entry_path(e: DirEntry) -> Seq<char> {
    match e {
        DirEntry::File(f) => f.path@,
        DirEntry::Dir(d) => d.path@,
    }
}

/// Every file and directory below `d`, in pre-order: the files of `d`, then
/// each sub-directory followed by everything below it. `d` itself is not
/// among them.
pub open spec fn walk<'a>(d: &'a Dir) -> Seq<DirEntry<'a>>
    decreases d, d.dirs.len() + 1,
{
    Seq::new(d.files@.len(), |k: int| DirEntry::File(&d.files[k])) + walk_dirs(d, 0)
}

/// The pre-order walk of the sub-directories of `d` from index `i` on.
pub open spec fn walk_dirs<'a>(d: &'a Dir, i: int) -> Seq<DirEntry<'a>>
    decreases d, d.dirs.len() - i,
{
    if i < 0 || i >= d.dirs.len() {
        Seq::empty()
    } else {
        seq![DirEntry::Dir(&d.dirs[i])] + walk(&d.dirs[i]) + walk_dirs(d, i + 1)
    }
}

/// The entries of `es` whose paths the compiled pattern `t` (with
/// characters `pc`) matches, in order.
pub open spec fn matching<'a>(es: Seq<DirEntry<'a>>, t: Seq<Token>, pc: Seq<char>) -> Seq<
    DirEntry<'a>,
>
    decreases es.len(),
{
    if es.len() == 0 {
        Seq::empty()
    } else {
        let m = matching(es.drop_last(), t, pc);
        if glob_matches(t, pc, entry_path(es.last())) {
            m.push(es.last())
        } else {
            m
        }
    }
}

/// What a search of `d` for `pattern` gives: the pattern's error, or the
/// entries of the walk whose paths it matches.
pub open spec fn find_spec<'a>(d: &'a Dir, pattern: Seq<char>) -> Result<
    Seq<DirEntry<'a>>,
    PatternError,
> {
    match parse(pattern) {
        Ok(t) => Ok(matching(walk(d), t, pattern)),
        Err(e) => Err(e),
    }
}

proof fn lemma_matching_append<'a>(
    a: Seq<DirEntry<'a>>,
    b: Seq<DirEntry<'a>>,
    t: Seq<Token>,
    pc: Seq<char>,
)
    ensures
        matching(a + b, t, pc) == matching(a, t, pc) + matching(b, t, pc),
    decreases b.len(),
{
    if b.len() == 0 {
        assert(a + b =~= a);
        assert(matching(a, t, pc) + matching(b, t, pc) =~= matching(a, t, pc));
    } else {
        assert((a + b).drop_last() =~= a + b.drop_last());
        assert((a + b).last() == b.last());
        lemma_matching_append(a, b.drop_last(), t, pc);
        let ma = matching(a, t, pc);
        let mb = matching(b.drop_last(), t, pc);
        assert((ma + mb).push(b.last()) =~= ma + mb.push(b.last()));
    }
}

/// The first of `fs`, from index `i` on, whose path is the same as `q`.
pub open spec fn first_file(fs: Seq<File>, i: int, q: Seq<char>) -> Option<File>
    decreases fs.len() - i,
{
    if i < 0 || i >= fs.len() {
        None
    } else if path_eq(fs[i].path@, q) {
        Some(fs[i])
    } else {
        first_file(fs, i + 1, q)
    }
}

/// The file that lookup finds for `q` under `d`: a direct file first, else
/// the first found in the sub-directories, in order.
pub open spec fn file_under(d: Dir, q: Seq<char>) -> Option<File>
    decreases d, d.dirs.len() + 1,
{
    match first_file(d.files@, 0, q) {
        Some(f) => Some(f),
        None => file_in_dirs(d, 0, q),
    }
}

/// The file that lookup finds for `q` in the sub-directories of `d` from
/// index `i` on.
pub open spec fn file_in_dirs(d: Dir, i: int, q: Seq<char>) -> Option<File>
    decreases d, d.dirs.len() - i,
{
    if i < 0 || i >= d.dirs.len() {
        None
    } else {
        match file_under(d.dirs[i], q) {
            Some(f) => Some(f),
            None => file_in_dirs(d, i + 1, q),
        }
    }
}

/// The directory that lookup finds for `q` under `d`: each sub-directory is
/// tried before its own subtree, in order; `d` itself is not a candidate.
pub open spec fn dir_under(d: Dir, q: Seq<char>) -> Option<Dir>
    decreases d, d.dirs.len() + 1,
{
    dir_in_dirs(d, 0, q)
}

/// The directory that lookup finds for `q` from the sub-directory of `d` at
/// index `i` on.
pub open spec fn dir_in_dirs(d: Dir, i: int, q: Seq<char>) -> Option<Dir>
    decreases d, d.dirs.len() - i,
{
    if i < 0 || i >= d.dirs.len() {
        None
    } else if path_eq(d.dirs[i].path@, q) {
        Some(d.dirs[i])
    } else {
        match dir_under(d.dirs[i], q) {
            Some(s) => Some(s),
            None => dir_in_dirs(d, i + 1, q),
        }
    }
}

/// The query's components, as a value that lookup compares against.
spec fn is_query(q: &Vec<Vec<char>>, p: Seq<char>) -> bool {
    q.len() == components(p).len() && forall|k: int|
        0 <= k < q.len() ==> #[trigger] q[k]@ == components(p)[k]
}

fn path_matches(stored: &str, q: &Vec<Vec<char>>, Ghost(p): Ghost<Seq<char>>) -> (r: bool)
    requires
        is_query(q, p),
    ensures
        r == path_eq(stored@, p),
{
    let c = path_components(stored);
    let r = same_components(&c, q);
    proof {
        if r {
            assert forall|k: int| 0 <= k < components(stored@).len() implies components(stored@)[k]
                == components(p)[k] by {
                assert(c[k]@ == q[k]@);
            }
            assert(components(stored@) =~= components(p));
        } else if components(stored@) == components(p) {
            assert(forall|k: int| 0 <= k < c.len() ==> #[trigger] c[k]@ == q[k]@);
        }
    }
    r
}

impl Dir {
    /// A directory with the given relative path and children.
    pub fn new(path: String, files: Vec<File>, dirs: Vec<Dir>) -> (r: Dir)
        ensures
            r.path@ == path@,
            r.files@ == files@,
            r.dirs@ == dirs@,
    {
        Dir { path, files, dirs }
    }

    /// The directory's path relative to the root.
    pub fn path(&self) -> (r: &str)
        ensures
            r@ == self.path@,
    {
        self.path.as_str()
    }

    /// The files directly in this directory.
    pub fn files(&self) -> (r: &[File])
        ensures
            r@ == self.files@,
    {
        self.files.as_slice()
    }

    /// The sub-directories directly in this directory.
    pub fn dirs(&self) -> (r: &[Dir])
        ensures
            r@ == self.dirs@,
    {
        self.dirs.as_slice()
    }

    fn file_by_query(&self, q: &Vec<Vec<char>>, Ghost(p): Ghost<Seq<char>>) -> (r: Option<&File>)
        requires
            is_query(q, p),
        ensures
            match r {
                Some(f) => file_under(*self, p) == Some(*f),
                None => file_under(*self, p) is None,
            },
        decreases self, self.dirs.len() + 1,
    {
        let mut i: usize = 0;
        while i < self.files.len()
            invariant
                i <= self.files.len(),
                is_query(q, p),
                first_file(self.files@, 0, p) == first_file(self.files@, i as int, p),
            decreases self.files.len() - i,
        {
            if path_matches(self.files[i].path.as_str(), q, Ghost(p)) {
                return Some(&self.files[i]);
            }
            i = i + 1;
        }
        let mut j: usize = 0;
        while j < self.dirs.len()
            invariant
                j <= self.dirs.len(),
                is_query(q, p),
                first_file(self.files@, 0, p) is None,
                file_under(*self, p) == file_in_dirs(*self, j as int, p),
            decreases self.dirs.len() - j,
        {
            let found = self.dirs[j].file_by_query(q, Ghost(p));
            if found.is_some() {
                return found;
            }
            j = j + 1;
        }
        None
    }

    fn dir_by_query(&self, q: &Vec<Vec<char>>, Ghost(p): Ghost<Seq<char>>) -> (r: Option<&Dir>)
        requires
            is_query(q, p),
        ensures
            match r {
                Some(d) => dir_under(*self, p) == Some(*d),
                None => dir_under(*self, p) is None,
            },
        decreases self, self.dirs.len() + 1,
    {
        let mut j: usize = 0;
        while j < self.dirs.len()
            invariant
                j <= self.dirs.len(),
                is_query(q, p),
                dir_under(*self, p) == dir_in_dirs(*self, j as int, p),
            decreases self.dirs.len() - j,
        {
            let sub = &self.dirs[j];
            if path_matches(sub.path.as_str(), q, Ghost(p)) {
                return Some(sub);
            }
            let found = sub.dir_by_query(q, Ghost(p));
            if found.is_some() {
                return found;
            }
            j = j + 1;
        }
        None
    }

    fn collect<'a>(&'a self, p: &Pattern, out: &mut Vec<DirEntry<'a>>)
        requires
            p.well_formed(),
        ensures
            final(out)@ == old(out)@ + matching(walk(self), p.spec_tokens(), p.spec_chars()),
        decreases self, self.dirs.len() + 1,
    {
        let ghost t = p.spec_tokens();
        let ghost pc = p.spec_chars();
        let ghost out0 = out@;
        let ghost fs = Seq::new(self.files@.len(), |k: int| DirEntry::File(&self.files[k]));
        let mut k: usize = 0;
        assert(fs.take(0) =~= Seq::<DirEntry<'a>>::empty());
        while k < self.files.len()
            invariant
                k <= self.files.len(),
                fs == Seq::new(self.files@.len(), |k: int| DirEntry::File(&self.files[k])),
                p.well_formed(),
                t == p.spec_tokens(),
                pc == p.spec_chars(),
                out@ == out0 + matching(fs.take(k as int), t, pc),
            decreases self.files.len() - k,
        {
            let f = &self.files[k];
            let e = DirEntry::File(f);
            assert(fs.take(k + 1).drop_last() =~= fs.take(k as int));
            assert(fs.take(k + 1).last() == e);
            if p.matches(f.path.as_str()) {
                out.push(e);
                assert(out@ =~= out0 + matching(fs.take(k + 1), t, pc));
            }
            k = k + 1;
        }
        assert(fs.take(k as int) =~= fs);
        proof {
            lemma_matching_append(fs, walk_dirs(self, 0), t, pc);
        }
        let mut j: usize = 0;
        while j < self.dirs.len()
            invariant
                j <= self.dirs.len(),
                p.well_formed(),
                t == p.spec_tokens(),
                pc == p.spec_chars(),
                out@ + matching(walk_dirs(self, j as int), t, pc) == out0 + matching(
                    walk(self),
                    t,
                    pc,
                ),
            decreases self.dirs.len() - j,
        {
            let sub = &self.dirs[j];
            let ghost before = out@;
            let ghost head = seq![DirEntry::Dir(sub)];
            let ghost rest = walk_dirs(self, j + 1);
            proof {
                assert(walk_dirs(self, j as int) == head + walk(sub) + rest);
                lemma_matching_append(head + walk(sub), rest, t, pc);
                lemma_matching_append(head, walk(sub), t, pc);
                assert(head.drop_last() =~= Seq::<DirEntry<'a>>::empty());
                assert(head.last() == DirEntry::Dir(sub));
                assert(matching(head.drop_last(), t, pc) =~= Seq::<DirEntry<'a>>::empty());
            }
            if p.matches(sub.path.as_str()) {
                out.push(DirEntry::Dir(sub));
            }
            assert(out@ =~= before + matching(head, t, pc));
            sub.collect(p, out);
            assert(out@ + matching(rest, t, pc) =~= before + matching(
                walk_dirs(self, j as int),
                t,
                pc,
            ));
            j = j + 1;
        }
        assert(out@ + matching(walk_dirs(self, j as int), t, pc) =~= out@);
    }

    /// The entries below this directory whose paths match the glob
    /// `pattern`, in pre-order, or the pattern's error.
    pub fn find<'a>(&'a self, pattern: &str) -> (r: Result<Vec<DirEntry<'a>>, PatternError>)
        ensures
            match r {
                Ok(v) => find_spec(self, pattern@) == Ok::<Seq<DirEntry<'a>>, PatternError>(v@),
                Err(e) => find_spec(self, pattern@) == Err::<Seq<DirEntry<'a>>, PatternError>(e),
            },
    {
        match Pattern::new(pattern) {
            Err(e) => Err(e),
            Ok(p) => {
                let mut out: Vec<DirEntry<'a>> = Vec::new();
                self.collect(&p, &mut out);
                assert(out@ =~= matching(walk(self), p.spec_tokens(), pattern@));
                Ok(out)
            },
        }
    }

    /// The file found by exact path: the direct files are tried first, then
    /// each sub-directory's subtree, in order.
    pub fn get_file(&self, path: &str) -> (r: Option<&File>)
        ensures
            match r {
                Some(f) => file_under(*self, path@) == Some(*f),
                None => file_under(*self, path@) is None,
            },
    {
        let q = path_components(path);
        self.file_by_query(&q, Ghost(path@))
    }

    /// The sub-directory found by exact path, in pre-order: each
    /// sub-directory is tried before its own subtree. The directory itself is
    /// never returned.
    pub fn get_dir(&self, path: &str) -> (r: Option<&Dir>)
        ensures
            match r {
                Some(d) => dir_under(*self, path@) == Some(*d),
                None => dir_under(*self, path@) is None,
            },
    {
        let q = path_components(path);
        self.dir_by_query(&q, Ghost(path@))
    }

    /// Whether a file or a sub-directory has exactly this path.
    pub fn contains(&self, path: &str) -> (r: bool)
        ensures
            r == (file_under(*self, path@) is Some || dir_under(*self, path@) is Some),
    {
        self.get_file(path).is_some() || self.get_dir(path).is_some()
    }
}

} // verus!
