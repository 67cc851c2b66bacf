use vstd::prelude::*;
use crate::dir::{
    dir_in_dirs, dir_under, entry_path, file_in_dirs, file_under, find_spec, first_file, walk,
    walk_dirs, Dir, DirEntry,
};
use crate::dir::matching;
use crate::file::File;
use crate::glob::{dir_run, glob_matches, match_at, parse, token_at, tokens_from, PatternError, Token};
use crate::path::path_eq;

verus! {

broadcast use vstd::std_specs::vec::group_vec_axioms;

/// Whether `e` is the file `f`.
pub open spec fn is_file(e: DirEntry, f: File) -> bool {
    match e {
        DirEntry::File(g) => *g == f,
        DirEntry::Dir(_) => false,
    }
}

/// Whether `e` is the directory `d`.
pub open spec fn is_dir(e: DirEntry, d: Dir) -> bool {
    match e {
        DirEntry::Dir(g) => *g == d,
        DirEntry::File(_) => false,
    }
}

/// Whether some entry of `es` has the same path as `q`.
pub open spec fn has_path(es: Seq<DirEntry>, q: Seq<char>) -> bool {
    exists|k: int| 0 <= k < es.len() && path_eq(entry_path(#[trigger] es[k]), q)
}

/// No two entries of `es` have the same path.
pub open spec fn unique_paths(es: Seq<DirEntry>) -> bool {
    forall|i: int, j: int|
        0 <= i < es.len() && 0 <= j < es.len() && i != j ==> !path_eq(
            entry_path(#[trigger] es[i]),
            entry_path(#[trigger] es[j]),
        )
}

proof fn lemma_first_file_sound(fs: Seq<File>, i: int, q: Seq<char>)
    requires
        0 <= i,
    ensures
        first_file(fs, i, q) matches Some(f) ==> exists|k: int|
            i <= k < fs.len() && #[trigger] fs[k] == f && path_eq(f.path@, q),
    decreases fs.len() - i,
{
    if i < fs.len() && !path_eq(fs[i].path@, q) {
        lemma_first_file_sound(fs, i + 1, q);
    }
}

proof fn lemma_first_file_complete(fs: Seq<File>, i: int, k: int, q: Seq<char>)
    requires
        0 <= i <= k < fs.len(),
        path_eq(fs[k].path@, q),
    ensures
        first_file(fs, i, q) is Some,
    decreases k - i,
{
    if i < k && !path_eq(fs[i].path@, q) {
        lemma_first_file_complete(fs, i + 1, k, q);
    }
}

proof fn lemma_file_under_sound(d: &Dir, q: Seq<char>)
    ensures
        file_under(*d, q) matches Some(f) ==> path_eq(f.path@, q) && exists|k: int|
            0 <= k < walk(d).len() && is_file(#[trigger] walk(d)[k], f),
    decreases d, d.dirs.len() + 1,
{
    let fs = Seq::new(d.files@.len(), |k: int| DirEntry::File(&d.files[k]));
    assert(walk(d) == fs + walk_dirs(d, 0));
    lemma_first_file_sound(d.files@, 0, q);
    match first_file(d.files@, 0, q) {
        Some(f) => {
            let k = choose|k: int| 0 <= k < d.files@.len() && #[trigger] d.files@[k] == f && path_eq(
                f.path@,
                q,
            );
            assert(is_file(walk(d)[k], f));
        },
        None => {
            lemma_file_in_dirs_sound(d, 0, q);
            if let Some(f) = file_in_dirs(*d, 0, q) {
                let k = choose|k: int|
                    0 <= k < walk_dirs(d, 0).len() && is_file(#[trigger] walk_dirs(d, 0)[k], f);
                assert(walk(d)[fs.len() + k] == walk_dirs(d, 0)[k]);
            }
        },
    }
}

proof fn lemma_file_in_dirs_sound(d: &Dir, i: int, q: Seq<char>)
    ensures
        file_in_dirs(*d, i, q) matches Some(f) ==> path_eq(f.path@, q) && exists|k: int|
            0 <= k < walk_dirs(d, i).len() && is_file(#[trigger] walk_dirs(d, i)[k], f),
    decreases d, d.dirs.len() - i,
{
    if 0 <= i < d.dirs.len() {
        let sub = &d.dirs[i];
        let head = seq![DirEntry::Dir(sub)];
        let rest = walk_dirs(d, i + 1);
        assert(walk_dirs(d, i) == head + walk(sub) + rest);
        lemma_file_under_sound(sub, q);
        match file_under(*sub, q) {
            Some(f) => {
                let k = choose|k: int| 0 <= k < walk(sub).len() && is_file(#[trigger] walk(sub)[k], f);
                assert(walk_dirs(d, i)[1 + k] == walk(sub)[k]);
            },
            None => {
                lemma_file_in_dirs_sound(d, i + 1, q);
                if let Some(f) = file_in_dirs(*d, i + 1, q) {
                    let k = choose|k: int| 0 <= k < rest.len() && is_file(#[trigger] rest[k], f);
                    assert(walk_dirs(d, i)[1 + walk(sub).len() + k] == rest[k]);
                }
            },
        }
    }
}

proof fn lemma_file_under_complete(d: &Dir, k: int, q: Seq<char>)
    requires
        0 <= k < walk(d).len(),
        walk(d)[k] is File,
        path_eq(entry_path(walk(d)[k]), q),
    ensures
        file_under(*d, q) is Some,
    decreases d, d.dirs.len() + 1,
{
    let fs = Seq::new(d.files@.len(), |k: int| DirEntry::File(&d.files[k]));
    assert(walk(d) == fs + walk_dirs(d, 0));
    if k < fs.len() {
        assert(walk(d)[k] == fs[k]);
        lemma_first_file_complete(d.files@, 0, k, q);
    } else {
        assert(walk(d)[k] == walk_dirs(d, 0)[k - fs.len()]);
        lemma_file_in_dirs_complete(d, 0, k - fs.len(), q);
    }
}

proof fn lemma_file_in_dirs_complete(d: &Dir, i: int, k: int, q: Seq<char>)
    requires
        0 <= k < walk_dirs(d, i).len(),
        walk_dirs(d, i)[k] is File,
        path_eq(entry_path(walk_dirs(d, i)[k]), q),
    ensures
        file_in_dirs(*d, i, q) is Some,
    decreases d, d.dirs.len() - i,
{
    if 0 <= i < d.dirs.len() {
        let sub = &d.dirs[i];
        let head = seq![DirEntry::Dir(sub)];
        let rest = walk_dirs(d, i + 1);
        assert(walk_dirs(d, i) == head + walk(sub) + rest);
        if k == 0 {
            assert(walk_dirs(d, i)[k] == DirEntry::Dir(sub));
        } else if k < 1 + walk(sub).len() {
            assert(walk_dirs(d, i)[k] == walk(sub)[k - 1]);
            lemma_file_under_complete(sub, k - 1, q);
        } else {
            assert(walk_dirs(d, i)[k] == rest[k - 1 - walk(sub).len()]);
            lemma_file_in_dirs_complete(d, i + 1, k - 1 - walk(sub).len(), q);
        }
    }
}

proof fn lemma_dir_under_sound(d: &Dir, q: Seq<char>)
    ensures
        dir_under(*d, q) matches Some(s) ==> path_eq(s.path@, q) && exists|k: int|
            0 <= k < walk(d).len() && is_dir(#[trigger] walk(d)[k], s),
    decreases d, d.dirs.len() + 1,
{
    let fs = Seq::new(d.files@.len(), |k: int| DirEntry::File(&d.files[k]));
    assert(walk(d) == fs + walk_dirs(d, 0));
    lemma_dir_in_dirs_sound(d, 0, q);
    if let Some(s) = dir_in_dirs(*d, 0, q) {
        let k = choose|k: int| 0 <= k < walk_dirs(d, 0).len() && is_dir(#[trigger] walk_dirs(d, 0)[k], s);
        assert(walk(d)[fs.len() + k] == walk_dirs(d, 0)[k]);
    }
}

proof fn lemma_dir_in_dirs_sound(d: &Dir, i: int, q: Seq<char>)
    ensures
        dir_in_dirs(*d, i, q) matches Some(s) ==> path_eq(s.path@, q) && exists|k: int|
            0 <= k < walk_dirs(d, i).len() && is_dir(#[trigger] walk_dirs(d, i)[k], s),
    decreases d, d.dirs.len() - i,
{
    if 0 <= i < d.dirs.len() {
        let sub = &d.dirs[i];
        let head = seq![DirEntry::Dir(sub)];
        let rest = walk_dirs(d, i + 1);
        assert(walk_dirs(d, i) == head + walk(sub) + rest);
        if path_eq(sub.path@, q) {
            assert(is_dir(walk_dirs(d, i)[0], *sub));
        } else {
            lemma_dir_under_sound(sub, q);
            match dir_under(*sub, q) {
                Some(s) => {
                    let k = choose|k: int| 0 <= k < walk(sub).len() && is_dir(#[trigger] walk(sub)[k], s);
                    assert(walk_dirs(d, i)[1 + k] == walk(sub)[k]);
                },
                None => {
                    lemma_dir_in_dirs_sound(d, i + 1, q);
                    if let Some(s) = dir_in_dirs(*d, i + 1, q) {
                        let k = choose|k: int| 0 <= k < rest.len() && is_dir(#[trigger] rest[k], s);
                        assert(walk_dirs(d, i)[1 + walk(sub).len() + k] == rest[k]);
                    }
                },
            }
        }
    }
}

proof fn lemma_dir_under_complete(d: &Dir, k: int, q: Seq<char>)
    requires
        0 <= k < walk(d).len(),
        walk(d)[k] is Dir,
        path_eq(entry_path(walk(d)[k]), q),
    ensures
        dir_under(*d, q) is Some,
    decreases d, d.dirs.len() + 1,
{
    let fs = Seq::new(d.files@.len(), |k: int| DirEntry::File(&d.files[k]));
    assert(walk(d) == fs + walk_dirs(d, 0));
    if k < fs.len() {
        assert(walk(d)[k] == fs[k]);
    } else {
        assert(walk(d)[k] == walk_dirs(d, 0)[k - fs.len()]);
        lemma_dir_in_dirs_complete(d, 0, k - fs.len(), q);
    }
}

proof fn lemma_dir_in_dirs_complete(d: &Dir, i: int, k: int, q: Seq<char>)
    requires
        0 <= k < walk_dirs(d, i).len(),
        walk_dirs(d, i)[k] is Dir,
        path_eq(entry_path(walk_dirs(d, i)[k]), q),
    ensures
        dir_in_dirs(*d, i, q) is Some,
    decreases d, d.dirs.len() - i,
{
    if 0 <= i < d.dirs.len() {
        let sub = &d.dirs[i];
        let head = seq![DirEntry::Dir(sub)];
        let rest = walk_dirs(d, i + 1);
        assert(walk_dirs(d, i) == head + walk(sub) + rest);
        if k == 0 {
            assert(walk_dirs(d, i)[k] == DirEntry::Dir(sub));
        } else if k < 1 + walk(sub).len() {
            assert(walk_dirs(d, i)[k] == walk(sub)[k - 1]);
            lemma_dir_under_complete(sub, k - 1, q);
        } else {
            assert(walk_dirs(d, i)[k] == rest[k - 1 - walk(sub).len()]);
            lemma_dir_in_dirs_complete(d, i + 1, k - 1 - walk(sub).len(), q);
        }
    }
}

/// A path that no file or directory below `d` has is found by neither
/// lookup, so `contains` is false for it.
pub proof fn lemma_absent_path_not_found(d: &Dir, q: Seq<char>)
    requires
        !has_path(walk(d), q),
    ensures
        file_under(*d, q) is None,
        dir_under(*d, q) is None,
{
    lemma_file_under_sound(d, q);
    lemma_dir_under_sound(d, q);
    if let Some(f) = file_under(*d, q) {
        let k = choose|k: int| 0 <= k < walk(d).len() && is_file(#[trigger] walk(d)[k], f);
        assert(path_eq(entry_path(walk(d)[k]), q));
    }
    if let Some(s) = dir_under(*d, q) {
        let k = choose|k: int| 0 <= k < walk(d).len() && is_dir(#[trigger] walk(d)[k], s);
        assert(path_eq(entry_path(walk(d)[k]), q));
    }
}

/// In a tree whose paths are unique, looking up the path of any file below
/// `d` finds that very file, and looking up the path of any directory below
/// `d` finds that very directory.
pub proof fn lemma_present_entry_found(d: &Dir, k: int)
    requires
        unique_paths(walk(d)),
        0 <= k < walk(d).len(),
    ensures
        walk(d)[k] matches DirEntry::File(f) ==> file_under(*d, f.path@) == Some(*f),
        walk(d)[k] matches DirEntry::Dir(s) ==> dir_under(*d, s.path@) == Some(*s),
{
    let q = entry_path(walk(d)[k]);
    match walk(d)[k] {
        DirEntry::File(f) => {
            lemma_file_under_complete(d, k, q);
            lemma_file_under_sound(d, q);
            let g = file_under(*d, q)->Some_0;
            let j = choose|j: int| 0 <= j < walk(d).len() && is_file(#[trigger] walk(d)[j], g);
            assert(path_eq(entry_path(walk(d)[j]), q));
            assert(j == k);
        },
        DirEntry::Dir(s) => {
            lemma_dir_under_complete(d, k, q);
            lemma_dir_under_sound(d, q);
            let g = dir_under(*d, q)->Some_0;
            let j = choose|j: int| 0 <= j < walk(d).len() && is_dir(#[trigger] walk(d)[j], g);
            assert(path_eq(entry_path(walk(d)[j]), q));
            assert(j == k);
        },
    }
}

proof fn lemma_matching_all<'a>(es: Seq<DirEntry<'a>>, t: Seq<Token>, pc: Seq<char>)
    requires
        forall|k: int| 0 <= k < es.len() ==> glob_matches(t, pc, entry_path(#[trigger] es[k])),
    ensures
        matching(es, t, pc) == es,
    decreases es.len(),
{
    if es.len() > 0 {
        lemma_matching_all(es.drop_last(), t, pc);
        assert(es.drop_last().push(es.last()) =~= es);
    }
}

proof fn lemma_matching_matches<'a>(es: Seq<DirEntry<'a>>, t: Seq<Token>, pc: Seq<char>)
    ensures
        forall|k: int|
            0 <= k < matching(es, t, pc).len() ==> glob_matches(
                t,
                pc,
                entry_path(#[trigger] matching(es, t, pc)[k]),
            ),
    decreases es.len(),
{
    if es.len() > 0 {
        lemma_matching_matches(es.drop_last(), t, pc);
        let m = matching(es.drop_last(), t, pc);
        if glob_matches(t, pc, entry_path(es.last())) {
            let mp = m.push(es.last());
            assert(matching(es, t, pc) == mp);
            assert forall|k: int| 0 <= k < mp.len() implies glob_matches(
                t,
                pc,
                entry_path(#[trigger] mp[k]),
            ) by {
                if k < m.len() {
                    assert(mp[k] == m[k]);
                }
            }
        }
    }
}

/// The characters of the pattern `**/*`.
pub open spec fn every_path_pattern() -> Seq<char> {
    seq!['*', '*', '/', '*']
}

/// The characters of the pattern `*.txt`.
pub open spec fn txt_pattern() -> Seq<char> {
    seq!['*', '.', 't', 'x', 't']
}

proof fn lemma_any_path(t: Seq<Token>, pc: Seq<char>, s: Seq<char>, si: int)
    requires
        t == seq![Token::AnyDirs, Token::Star],
        0 <= si <= s.len(),
    ensures
        match_at(t, pc, 0, s, si),
    decreases s.len() - si,
{
    if si == s.len() {
        assert(match_at(t, pc, 2, s, si));
        assert(match_at(t, pc, 1, s, si));
    } else {
        lemma_any_path(t, pc, s, si + 1);
        if s[si] == '/' {
            assert(dir_run(t, pc, 0, s, si));
        } else if dir_run(t, pc, 0, s, si + 1) {
            assert(dir_run(t, pc, 0, s, si));
        } else {
            assert(match_at(t, pc, 1, s, si + 1));
            assert(match_at(t, pc, 1, s, si));
        }
    }
}

/// Searching for `**/*` yields every file and directory below `d`, each
/// once, in pre-order.
pub proof fn lemma_every_path_pattern_finds_all(d: &Dir)
    ensures
        find_spec(d, every_path_pattern()) == Ok::<Seq<DirEntry>, PatternError>(
            walk(d),
        ),
{
    let s = every_path_pattern();
    let t = seq![Token::AnyDirs, Token::Star];
    assert(token_at(s, 3) == Ok::<(Token, int), PatternError>((Token::Star, 4)));
    assert(tokens_from(s, 4) == Ok::<Seq<Token>, PatternError>(Seq::empty()));
    assert(tokens_from(s, 3) == Ok::<Seq<Token>, PatternError>(seq![Token::Star]));
    assert(token_at(s, 0) == Ok::<(Token, int), PatternError>((Token::AnyDirs, 3)));
    assert(seq![Token::AnyDirs] + seq![Token::Star] =~= t);
    assert(parse(s) == Ok::<Seq<Token>, PatternError>(t));
    assert forall|k: int| 0 <= k < walk(d).len() implies glob_matches(
        t,
        s,
        entry_path(#[trigger] walk(d)[k]),
    ) by {
        lemma_any_path(t, s, entry_path(walk(d)[k]), 0);
    }
    lemma_matching_all(walk(d), t, s);
}

proof fn lemma_txt_tail(t: Seq<Token>, pc: Seq<char>, s: Seq<char>, si: int)
    requires
        t == seq![
            Token::Star,
            Token::Literal('.'),
            Token::Literal('t'),
            Token::Literal('x'),
            Token::Literal('t'),
        ],
        0 <= si <= s.len(),
        match_at(t, pc, 0, s, si),
    ensures
        s.len() >= si + 4,
        s.subrange(s.len() - 4, s.len() as int) == seq!['.', 't', 'x', 't'],
        forall|j: int| si <= j < s.len() ==> s[j] != '/',
    decreases s.len() - si,
{
    if match_at(t, pc, 1, s, si) {
        assert(match_at(t, pc, 2, s, si + 1));
        assert(match_at(t, pc, 3, s, si + 2));
        assert(match_at(t, pc, 4, s, si + 3));
        assert(match_at(t, pc, 5, s, si + 4));
        assert(s.subrange(s.len() - 4, s.len() as int) =~= seq!['.', 't', 'x', 't']);
    } else {
        lemma_txt_tail(t, pc, s, si + 1);
    }
}

/// Whether a path ends in `.txt` and holds no separator.
pub open spec fn is_top_level_txt(p: Seq<char>) -> bool {
    &&& p.len() >= 4
    &&& p.subrange(p.len() - 4, p.len() as int) == seq!['.', 't', 'x', 't']
    &&& forall|j: int| 0 <= j < p.len() ==> p[j] != '/'
}

/// Searching for `*.txt` succeeds and yields only entries whose whole path
/// ends in `.txt` without a separator: `*` does not cross directories.
pub proof fn lemma_txt_pattern_finds_top_level_txt(d: &Dir)
    ensures
        find_spec(d, txt_pattern()) is Ok,
        find_spec(d, txt_pattern()) matches Ok(es) ==> forall|k: int|
            0 <= k < es.len() ==> is_top_level_txt(entry_path(#[trigger] es[k])),
{
    let s = txt_pattern();
    let t = seq![
        Token::Star,
        Token::Literal('.'),
        Token::Literal('t'),
        Token::Literal('x'),
        Token::Literal('t'),
    ];
    assert(t.subrange(5, 5) =~= Seq::<Token>::empty());
    assert(tokens_from(s, 5) == Ok::<Seq<Token>, PatternError>(t.subrange(5, 5)));
    assert forall|i: int| 1 <= i < 5 implies token_at(s, i) == Ok::<
        (Token, int),
        PatternError,
    >((t[i], i + 1)) && #[trigger] (seq![t[i]] + t.subrange(i + 1, 5)) =~= t.subrange(i, 5) by {}
    assert(tokens_from(s, 4) == Ok::<Seq<Token>, PatternError>(t.subrange(4, 5)));
    assert(tokens_from(s, 3) == Ok::<Seq<Token>, PatternError>(t.subrange(3, 5)));
    assert(tokens_from(s, 2) == Ok::<Seq<Token>, PatternError>(t.subrange(2, 5)));
    assert(tokens_from(s, 1) == Ok::<Seq<Token>, PatternError>(t.subrange(1, 5)));
    assert(token_at(s, 0) == Ok::<(Token, int), PatternError>((Token::Star, 1)));
    assert(seq![t[0]] + t.subrange(1, 5) =~= t);
    assert(tokens_from(s, 0) == Ok::<Seq<Token>, PatternError>(t));
    lemma_matching_matches(walk(d), t, s);
    let es = matching(walk(d), t, s);
    assert forall|k: int| 0 <= k < es.len() implies is_top_level_txt(
        entry_path(#[trigger] es[k]),
    ) by {
        lemma_txt_tail(t, s, entry_path(es[k]), 0);
    }
}

} // verus!
