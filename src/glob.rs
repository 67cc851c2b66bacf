use vstd::prelude::*;
use crate::path::chars_of;

verus! {

/// One unit of a compiled glob pattern.
#[derive(Clone, Copy, PartialEq, Eq, Structural, Debug)]
pub enum Token {
    /// A character that must appear as it is.
    Literal(char),
    /// `?`: one character other than `/`.
    One,
    /// `*`: any run of characters other than `/`.
    Star,
    /// `[...]` or `[!...]`: one character other than `/` that is in (or, when
    /// negated, not in) the class whose body is the pattern's characters from
    /// `start` up to `end`.
    Class { negated: bool, start: usize, end: usize },
    /// `**/`: nothing, or any run of characters that ends in `/`.
    AnyDirs,
    /// `**` at the end of the pattern: any run of characters.
    AnyRest,
}

/// Why a glob pattern does not compile.
#[derive(Clone, Copy, PartialEq, Eq, Structural, Debug)]
pub enum PatternErrorKind {
    /// A `[` without its closing `]`.
    UnclosedClass,
    /// A `**` that is not a whole path component.
    RecursiveWildcard,
}

/// A pattern that does not compile: the position of the offending character
/// and what is wrong there.
#[derive(Clone, Copy, PartialEq, Eq, Structural, Debug)]
pub struct PatternError {
    pub pos: usize,
    pub kind: PatternErrorKind,
}

/// A compiled glob pattern: its characters, and the tokens read from them.
pub struct Pattern {
    chars: Vec<char>,
    tokens: Vec<Token>,
}

/// The first `]` of `s` at index `j` or later.
pub open spec fn class_close(s: Seq<char>, j: int) -> Option<int>
    decreases s.len() - j,
{
    if j < 0 || j >= s.len() {
        None
    } else if s[j] == ']' {
        Some(j)
    } else {
        class_close(s, j + 1)
    }
}

/// The token that starts at index `i` of `s`, with the index after it.
pub open spec fn token_at(s: Seq<char>, i: int) -> Result<(Token, int), PatternError> {
    if s[i] == '*' {
        if i + 1 < s.len() && s[i + 1] == '*' {
            if i > 0 && s[i - 1] != '/' {
                Err(PatternError { pos: i as usize, kind: PatternErrorKind::RecursiveWildcard })
            } else if i + 2 == s.len() {
                Ok((Token::AnyRest, i + 2))
            } else if s[i + 2] == '/' {
                Ok((Token::AnyDirs, i + 3))
            } else {
                Err(PatternError { pos: i as usize, kind: PatternErrorKind::RecursiveWildcard })
            }
        } else {
            Ok((Token::Star, i + 1))
        }
    } else if s[i] == '?' {
        Ok((Token::One, i + 1))
    } else if s[i] == '[' {
        let negated = i + 1 < s.len() && s[i + 1] == '!';
        let body = if negated { i + 2 } else { i + 1 };
        match class_close(s, body + 1) {
            Some(j) => Ok(
                (Token::Class { negated, start: body as usize, end: j as usize }, j + 1),
            ),
            None => Err(PatternError { pos: i as usize, kind: PatternErrorKind::UnclosedClass }),
        }
    } else {
        Ok((Token::Literal(s[i]), i + 1))
    }
}

/// The tokens of `s` from index `i` on, or the first error.
pub open spec fn tokens_from(s: Seq<char>, i: int) -> Result<Seq<Token>, PatternError>
    decreases s.len() - i,
{
    if i < 0 || i >= s.len() {
        Ok(Seq::empty())
    } else {
        match token_at(s, i) {
            Err(e) => Err(e),
            // a token always moves forward and ends within the pattern
            Ok((t, next)) => if next <= i || next > s.len() {
                Err(PatternError { pos: i as usize, kind: PatternErrorKind::UnclosedClass })
            } else {
                match tokens_from(s, next) {
                    Err(e) => Err(e),
                    Ok(rest) => Ok(seq![t] + rest),
                }
            },
        }
    }
}

/// The tokens of a whole pattern, or the first error.
pub open spec fn parse(s: Seq<char>) -> Result<Seq<Token>, PatternError> {
    tokens_from(s, 0)
}

/// Whether `c` is in the class whose body is `b`: `x-y` is the range from
/// `x` to `y`, any other character stands for itself.
pub open spec fn class_has(b: Seq<char>, c: char) -> bool
    decreases b.len(),
{
    if b.len() == 0 {
        false
    } else if b.len() >= 3 && b[1] == '-' {
        (b[0] <= c && c <= b[2]) || class_has(b.skip(3), c)
    } else {
        b[0] == c || class_has(b.skip(1), c)
    }
}

/// Whether the tokens `t` from index `ti` on match the characters `s` from
/// index `si` on; `pc` is the pattern that class bodies index into.
pub open spec fn match_at(t: Seq<Token>, pc: Seq<char>, ti: int, s: Seq<char>, si: int) -> bool
    decreases t.len() - ti, s.len() - si, 1int,
{
    if ti < 0 || si < 0 || ti >= t.len() {
        si == s.len()
    } else {
        match t[ti] {
            Token::Literal(c) => si < s.len() && s[si] == c && match_at(t, pc, ti + 1, s, si + 1),
            Token::One => si < s.len() && s[si] != '/' && match_at(t, pc, ti + 1, s, si + 1),
            Token::Class { negated, start, end } => si < s.len() && s[si] != '/' && class_has(
                pc.subrange(start as int, end as int),
                s[si],
            ) != negated && match_at(t, pc, ti + 1, s, si + 1),
            Token::Star => match_at(t, pc, ti + 1, s, si) || (si < s.len() && s[si] != '/'
                && match_at(t, pc, ti, s, si + 1)),
            Token::AnyRest => match_at(t, pc, ti + 1, s, si) || (si < s.len() && match_at(
                t,
                pc,
                ti,
                s,
                si + 1,
            )),
            Token::AnyDirs => match_at(t, pc, ti + 1, s, si) || dir_run(t, pc, ti, s, si),
        }
    }
}

/// Inside a `**/` token at `ti`: the characters from `si` on run up to and
/// including a `/`, and the same token matches what follows it.
pub open spec fn dir_run(t: Seq<Token>, pc: Seq<char>, ti: int, s: Seq<char>, si: int) -> bool
    decreases t.len() - ti, s.len() - si, 0int,
{
    if si < 0 || si >= s.len() {
        false
    } else if s[si] == '/' {
        match_at(t, pc, ti, s, si + 1)
    } else {
        dir_run(t, pc, ti, s, si + 1)
    }
}

/// Whether the compiled pattern `t` (with characters `pc`) matches the whole
/// of `s`.
pub open spec fn glob_matches(t: Seq<Token>, pc: Seq<char>, s: Seq<char>) -> bool {
    match_at(t, pc, 0, s, 0)
}

fn find_close(s: &Vec<char>, from: usize) -> (r: Option<usize>)
    ensures
        match r {
            Some(j) => class_close(s@, from as int) == Some(j as int) && from <= j < s.len(),
            None => class_close(s@, from as int) is None,
        },
{
    let mut j = from;
    while j < s.len()
        invariant
            from <= j,
            class_close(s@, from as int) == class_close(s@, j as int),
        decreases s.len() - j,
    {
        if s[j] == ']' {
            return Some(j);
        }
        j = j + 1;
    }
    None
}

fn read_token(s: &Vec<char>, i: usize) -> (r: Result<(Token, usize), PatternError>)
    requires
        i < s.len(),
    ensures
        match r {
            Ok((t, n)) => token_at(s@, i as int) == Ok::<(Token, int), PatternError>(
                (t, n as int),
            ),
            Err(e) => token_at(s@, i as int) == Err::<(Token, int), PatternError>(e),
        },
        r matches Ok((t, n)) ==> i < n <= s.len() && match t {
            Token::Class { negated, start, end } => start <= end <= s.len(),
            _ => true,
        },
{
    let c = s[i];
    if c == '*' {
        if i + 1 < s.len() && s[i + 1] == '*' {
            if i > 0 && s[i - 1] != '/' {
                Err(PatternError { pos: i, kind: PatternErrorKind::RecursiveWildcard })
            } else if i + 2 == s.len() {
                Ok((Token::AnyRest, i + 2))
            } else if s[i + 2] == '/' {
                Ok((Token::AnyDirs, i + 3))
            } else {
                Err(PatternError { pos: i, kind: PatternErrorKind::RecursiveWildcard })
            }
        } else {
            Ok((Token::Star, i + 1))
        }
    } else if c == '?' {
        Ok((Token::One, i + 1))
    } else if c == '[' {
        let negated = i + 1 < s.len() && s[i + 1] == '!';
        let body = if negated { i + 2 } else { i + 1 };
        if body >= s.len() {
            return Err(PatternError { pos: i, kind: PatternErrorKind::UnclosedClass });
        }
        match find_close(s, body + 1) {
            Some(j) => Ok((Token::Class { negated, start: body, end: j }, j + 1)),
            None => Err(PatternError { pos: i, kind: PatternErrorKind::UnclosedClass }),
        }
    } else {
        Ok((Token::Literal(c), i + 1))
    }
}

/// `rest` with `done` put before it when it is a success.
pub open spec fn after(done: Seq<Token>, rest: Result<Seq<Token>, PatternError>) -> Result<
    Seq<Token>,
    PatternError,
> {
    match rest {
        Ok(r) => Ok(done + r),
        Err(e) => Err(e),
    }
}

fn class_contains(pc: &Vec<char>, start: usize, end: usize, c: char) -> (r: bool)
    requires
        start <= end <= pc.len(),
    ensures
        r == class_has(pc@.subrange(start as int, end as int), c),
{
    let mut k = start;
    while k < end
        invariant
            start <= k <= end <= pc.len(),
            class_has(pc@.subrange(start as int, end as int), c) == class_has(
                pc@.subrange(k as int, end as int),
                c,
            ),
        decreases end - k,
    {
        let b = Ghost(pc@.subrange(k as int, end as int));
        if end - k >= 3 && pc[k + 1] == '-' {
            assert(b@.skip(3) =~= pc@.subrange(k + 3, end as int));
            if pc[k] <= c && c <= pc[k + 2] {
                return true;
            }
            k = k + 3;
        } else {
            assert(b@.skip(1) =~= pc@.subrange(k + 1, end as int));
            if pc[k] == c {
                return true;
            }
            k = k + 1;
        }
    }
    false
}

impl Pattern {
    /// Compiles `pattern`, or gives the first error in it.
    pub fn new(pattern: &str) -> (r: Result<Pattern, PatternError>)
        ensures
            match r {
                Ok(p) => parse(pattern@) == Ok::<Seq<Token>, PatternError>(p.spec_tokens())
                    && p.spec_chars() == pattern@ && p.well_formed(),
                Err(e) => parse(pattern@) == Err::<Seq<Token>, PatternError>(e),
            },
    {
        let s = chars_of(pattern);
        let mut tokens: Vec<Token> = Vec::new();
        let mut i: usize = 0;
        while i < s.len()
            invariant
                i <= s.len(),
                s@ == pattern@,
                parse(s@) == after(tokens@, tokens_from(s@, i as int)),
                forall|k: int|
                    0 <= k < tokens.len() ==> match #[trigger] tokens@[k] {
                        Token::Class { negated, start, end } => start <= end <= s.len(),
                        _ => true,
                    },
            decreases s.len() - i,
        {
            match read_token(&s, i) {
                Err(e) => {
                    return Err(e);
                },
                Ok((t, next)) => {
                    proof {
                        match tokens_from(s@, next as int) {
                            Ok(rest) => {
                                assert(tokens@ + (seq![t] + rest) =~= tokens@.push(t) + rest);
                            },
                            Err(_) => {},
                        }
                    }
                    tokens.push(t);
                    i = next;
                },
            }
        }
        assert(tokens@ + Seq::empty() =~= tokens@);
        let p = Pattern { chars: s, tokens };
        assert(p.well_formed());
        Ok(p)
    }

    /// The characters the pattern was compiled from.
    pub closed spec fn spec_chars(&self) -> Seq<char> {
        self.chars@
    }

    /// The compiled tokens.
    pub closed spec fn spec_tokens(&self) -> Seq<Token> {
        self.tokens@
    }

    fn match_from(&self, ti: usize, s: &Vec<char>, si: usize) -> (r: bool)
        requires
            self.well_formed(),
            si <= s.len(),
        ensures
            r == match_at(self.tokens@, self.chars@, ti as int, s@, si as int),
        decreases self.tokens@.len() - ti, s@.len() - si, 1int,
    {
        if ti >= self.tokens.len() {
            return si == s.len();
        }
        match self.tokens[ti] {
            Token::Literal(c) => si < s.len() && s[si] == c && self.match_from(ti + 1, s, si + 1),
            Token::One => si < s.len() && s[si] != '/' && self.match_from(ti + 1, s, si + 1),
            Token::Class { negated, start, end } => si < s.len() && s[si] != '/' && class_contains(
                &self.chars,
                start,
                end,
                s[si],
            ) != negated && self.match_from(ti + 1, s, si + 1),
            Token::Star => self.match_from(ti + 1, s, si) || (si < s.len() && s[si] != '/'
                && self.match_from(ti, s, si + 1)),
            Token::AnyRest => self.match_from(ti + 1, s, si) || (si < s.len() && self.match_from(
                ti,
                s,
                si + 1,
            )),
            Token::AnyDirs => self.match_from(ti + 1, s, si) || self.dir_run_from(ti, s, si),
        }
    }

    fn dir_run_from(&self, ti: usize, s: &Vec<char>, si: usize) -> (r: bool)
        requires
            self.well_formed(),
            ti < self.tokens.len(),
            si <= s.len(),
        ensures
            r == dir_run(self.tokens@, self.chars@, ti as int, s@, si as int),
        decreases self.tokens@.len() - ti, s@.len() - si, 0int,
    {
        let mut k = si;
        while k < s.len()
            invariant
                si <= k <= s.len(),
                ti < self.tokens.len(),
                self.well_formed(),
                dir_run(self.tokens@, self.chars@, ti as int, s@, si as int) == dir_run(
                    self.tokens@,
                    self.chars@,
                    ti as int,
                    s@,
                    k as int,
                ),
            decreases s.len() - k,
        {
            if s[k] == '/' {
                return self.match_from(ti, s, k + 1);
            }
            k = k + 1;
        }
        false
    }

    /// Every class token's body lies within the pattern's characters.
    pub closed spec fn well_formed(&self) -> bool {
        forall|k: int|
            0 <= k < self.tokens.len() ==> match #[trigger] self.tokens@[k] {
                Token::Class { negated, start, end } => start <= end <= self.chars.len(),
                _ => true,
            }
    }

    /// Whether the pattern matches the whole of `path`.
    pub fn matches(&self, path: &str) -> (r: bool)
        requires
            self.well_formed(),
        ensures
            r == glob_matches(self.spec_tokens(), self.spec_chars(), path@),
    {
        let s = chars_of(path);
        self.match_from(0, &s, 0)
    }
}

} // verus!
