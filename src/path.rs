use vstd::prelude::*;

verus! {

/// The raw segments of `s` between `/` separators; `"a//b"` gives
/// `["a", "", "b"]`, the empty path gives one empty segment.
pub open spec fn raw_segments(s: Seq<char>) -> Seq<Seq<char>>
    decreases s.len(),
{
    if s.len() == 0 {
        seq![Seq::empty()]
    } else {
        let r = raw_segments(s.drop_last());
        if s.last() == '/' {
            r.push(Seq::empty())
        } else {
            r.update(r.len() - 1, r.last().push(s.last()))
        }
    }
}

/// A raw segment at position `idx` names a component: it is not empty, and it
/// is not a `.` that follows another segment.
pub open spec fn names_component(seg: Seq<char>, idx: int) -> bool {
    seg.len() > 0 && !(idx > 0 && seg == seq!['.'])
}

/// The raw segments that name components, in order.
pub open spec fn kept_segments(r: Seq<Seq<char>>) -> Seq<Seq<char>>
    decreases r.len(),
{
    if r.len() == 0 {
        Seq::empty()
    } else {
        let k = kept_segments(r.drop_last());
        if names_component(r.last(), r.len() - 1) {
            k.push(r.last())
        } else {
            k
        }
    }
}

/// The components of a path: a leading `/` is a root component of its own,
/// repeated separators and a trailing one are ignored, and `.` is dropped
/// except at the start.
pub open spec fn components(s: Seq<char>) -> Seq<Seq<char>> {
    if s.len() > 0 && s[0] == '/' {
        seq![seq!['/']] + kept_segments(raw_segments(s))
    } else {
        kept_segments(raw_segments(s))
    }
}

/// Two paths are the same when their components are.
pub open spec fn path_eq(a: Seq<char>, b: Seq<char>) -> bool {
    components(a) == components(b)
}

/// The last component of a path, or the empty sequence if it has none.
pub open spec fn base_name(s: Seq<char>) -> Seq<char> {
    let k = kept_segments(raw_segments(s));
    if k.len() == 0 {
        Seq::empty()
    } else {
        k.last()
    }
}

proof fn lemma_raw_segments_nonempty(s: Seq<char>)
    ensures
        raw_segments(s).len() >= 1,
    decreases s.len(),
{
    if s.len() > 0 {
        lemma_raw_segments_nonempty(s.drop_last());
    }
}

pub(crate) fn chars_of(s: &str) -> (r: Vec<char>)
    ensures
        r@ == s@,
{
    let n = s.unicode_len();
    let mut r: Vec<char> = Vec::new();
    let mut i: usize = 0;
    while i < n
        invariant
            n == s@.len(),
            i <= n,
            r@ == s@.take(i as int),
        decreases n - i,
    {
        let c = s.get_char(i);
        r.push(c);
        i = i + 1;
        assert(r@ =~= s@.take(i as int));
    }
    assert(r@ =~= s@);
    r
}

fn names_component_at(seg: &Vec<char>, idx: usize) -> (r: bool)
    ensures
        r == names_component(seg@, idx as int),
{
    let dot = seg.len() == 1 && seg[0] == '.';
    assert(dot <==> seg@ == seq!['.']) by {
        if seg@ == seq!['.'] {
            assert(seg@.len() == 1);
        }
        if dot {
            assert(seg@ =~= seq!['.']);
        }
    }
    seg.len() > 0 && !(idx > 0 && dot)
}

fn split_raw(s: &Vec<char>) -> (r: Vec<Vec<char>>)
    ensures
        r.len() == raw_segments(s@).len(),
        forall|k: int| 0 <= k < r.len() ==> #[trigger] r[k]@ == raw_segments(s@)[k],
{
    let mut done: Vec<Vec<char>> = Vec::new();
    let mut cur: Vec<char> = Vec::new();
    let mut i: usize = 0;
    assert(s@.take(0) =~= Seq::<char>::empty());
    while i < s.len()
        invariant
            i <= s.len(),
            done.len() + 1 == raw_segments(s@.take(i as int)).len(),
            forall|k: int|
                0 <= k < done.len() ==> #[trigger] done[k]@ == raw_segments(s@.take(i as int))[k],
            cur@ == raw_segments(s@.take(i as int)).last(),
        decreases s.len() - i,
    {
        let c = s[i];
        proof {
            lemma_raw_segments_nonempty(s@.take(i as int));
            assert(s@.take(i + 1).drop_last() =~= s@.take(i as int));
        }
        if c == '/' {
            done.push(cur);
            cur = Vec::new();
        } else {
            cur.push(c);
        }
        i = i + 1;
    }
    assert(s@.take(s.len() as int) =~= s@);
    done.push(cur);
    done
}

/// The components of `path`, as `components` gives them.
pub fn path_components(path: &str) -> (r: Vec<Vec<char>>)
    ensures
        r.len() == components(path@).len(),
        forall|k: int| 0 <= k < r.len() ==> #[trigger] r[k]@ == components(path@)[k],
{
    let s = chars_of(path);
    let raw = split_raw(&s);
    let mut r: Vec<Vec<char>> = Vec::new();
    let rooted = s.len() > 0 && s[0] == '/';
    if rooted {
        let root_seg: Vec<char> = vec!['/'];
        r.push(root_seg);
        assert(r[0]@ =~= seq!['/']);
    }
    let ghost root: Seq<Seq<char>> = if rooted {
        seq![seq!['/']]
    } else {
        Seq::empty()
    };
    let mut i: usize = 0;
    while i < raw.len()
        invariant
            i <= raw.len(),
            raw.len() == raw_segments(s@).len(),
            forall|k: int| 0 <= k < raw.len() ==> #[trigger] raw[k]@ == raw_segments(s@)[k],
            r.len() == root.len() + kept_segments(raw_segments(s@).take(i as int)).len(),
            forall|k: int|
                0 <= k < r.len() ==> #[trigger] r[k]@ == (root + kept_segments(
                    raw_segments(s@).take(i as int),
                ))[k],
        decreases raw.len() - i,
    {
        proof {
            assert(raw_segments(s@).take(i + 1).drop_last() =~= raw_segments(s@).take(i as int));
        }
        let seg = raw[i].clone();
        if names_component_at(&seg, i) {
            r.push(seg);
        }
        i = i + 1;
    }
    assert(raw_segments(s@).take(raw.len() as int) =~= raw_segments(s@));
    r
}

/// The last component of `path`, as `base_name` gives it.
pub fn base_name_of(path: &str) -> (r: Vec<char>)
    ensures
        r@ == base_name(path@),
{
    let s = chars_of(path);
    let raw = split_raw(&s);
    let ghost rs = raw_segments(s@);
    let mut last: Vec<char> = Vec::new();
    let mut i: usize = 0;
    assert(rs.take(0) =~= Seq::<Seq<char>>::empty());
    while i < raw.len()
        invariant
            i <= raw.len(),
            rs == raw_segments(s@),
            raw.len() == rs.len(),
            forall|k: int| 0 <= k < raw.len() ==> #[trigger] raw[k]@ == rs[k],
            last@ == (if kept_segments(rs.take(i as int)).len() == 0 {
                Seq::empty()
            } else {
                kept_segments(rs.take(i as int)).last()
            }),
        decreases raw.len() - i,
    {
        proof {
            assert(rs.take(i + 1).drop_last() =~= rs.take(i as int));
        }
        let seg = raw[i].clone();
        if names_component_at(&seg, i) {
            last = seg;
        }
        i = i + 1;
    }
    assert(rs.take(raw.len() as int) =~= rs);
    last
}

/// A copy of a component list.
pub(crate) fn copy_components(a: &Vec<Vec<char>>) -> (r: Vec<Vec<char>>)
    ensures
        r.len() == a.len(),
        forall|k: int| 0 <= k < a.len() ==> #[trigger] r[k]@ == a[k]@,
{
    let mut r: Vec<Vec<char>> = Vec::new();
    let mut i: usize = 0;
    while i < a.len()
        invariant
            i <= a.len(),
            r.len() == i,
            forall|k: int| 0 <= k < i ==> #[trigger] r[k]@ == a[k]@,
        decreases a.len() - i,
    {
        r.push(a[i].clone());
        i = i + 1;
    }
    r
}

/// Whether two component lists are equal.
pub(crate) fn same_components(a: &Vec<Vec<char>>, b: &Vec<Vec<char>>) -> (r: bool)
    ensures
        r == (a.len() == b.len() && forall|k: int| 0 <= k < a.len() ==> #[trigger] a[k]@ == b[k]@),
{
    if a.len() != b.len() {
        return false;
    }
    let mut i: usize = 0;
    while i < a.len()
        invariant
            a.len() == b.len(),
            i <= a.len(),
            forall|k: int| 0 <= k < i ==> #[trigger] a[k]@ == b[k]@,
        decreases a.len() - i,
    {
        let x = &a[i];
        let y = &b[i];
        if x.len() != y.len() {
            return false;
        }
        let mut j: usize = 0;
        while j < x.len()
            invariant
                x.len() == y.len(),
                j <= x.len(),
                i < a.len(),
                a.len() == b.len(),
                x@ == a[i as int]@,
                y@ == b[i as int]@,
                forall|k: int| 0 <= k < j ==> x@[k] == y@[k],
            decreases x.len() - j,
        {
            if x[j] != y[j] {
                assert(a[i as int]@[j as int] != b[i as int]@[j as int]);
                return false;
            }
            j = j + 1;
        }
        assert(x@ =~= y@);
        i = i + 1;
    }
    true
}

/// Whether `a` and `b` name the same path, component by component.
pub fn same_path(a: &str, b: &str) -> (r: bool)
    ensures
        r == path_eq(a@, b@),
{
    let ca = path_components(a);
    let cb = path_components(b);
    let r = same_components(&ca, &cb);
    proof {
        if r {
            assert forall|k: int| 0 <= k < components(a@).len() implies components(a@)[k]
                == components(b@)[k] by {
                assert(ca[k]@ == cb[k]@);
            }
            assert(components(a@) =~= components(b@));
        } else if components(a@) == components(b@) {
            assert(forall|k: int| 0 <= k < ca.len() ==> #[trigger] ca[k]@ == cb[k]@);
        }
    }
    r
}

} // verus!
