//! Slash-separated paths the way `std::path` treats them on Unix: split into
//! components (a leading `/` is the root, a leading `.` is kept, empty
//! segments and other `.` segments are dropped, `..` is kept as it is), and
//! the text that `Path::parent` and `PathBuf::join` give.
use vstd::prelude::*;

use crate::text::{
    chars_eq, find_char, first_index_of, lemma_first_index_sound, sub_chars, views_of,
};

verus! {

/// The root component.
pub open spec fn root_component() -> Seq<char> {
    seq!['/']
}

/// The current-directory component.
pub open spec fn cur_component() -> Seq<char> {
    seq!['.']
}

/// The parent-directory component.
pub open spec fn parent_component() -> Seq<char> {
    seq!['.', '.']
}

/// A segment between slashes as a component: nothing for an empty or `.` segment.
pub open spec fn keep_segment(seg: Seq<char>) -> Seq<Seq<char>> {
    if seg.len() == 0 || seg == cur_component() {
        seq![]
    } else {
        seq![seg]
    }
}

/// The components made of the segments of `s`.
pub open spec fn body_components(s: Seq<char>) -> Seq<Seq<char>>
    decreases s.len(),
{
    proof {
        lemma_first_index_sound(s, '/');
    }
    match first_index_of(s, '/') {
        Some(i) => keep_segment(s.take(i)) + body_components(s.skip(i + 1)),
        None => keep_segment(s),
    }
}

/// Whether the path starts with `/`.
pub open spec fn is_absolute(s: Seq<char>) -> bool {
    s.len() > 0 && s[0] == '/'
}

/// Whether a relative path starts with a `.` segment.
pub open spec fn starts_with_cur(s: Seq<char>) -> bool {
    !is_absolute(s) && s.len() >= 1 && s[0] == '.' && (s.len() == 1 || s[1] == '/')
}

/// The components of a path.
pub open spec fn components(s: Seq<char>) -> Seq<Seq<char>> {
    (if is_absolute(s) {
        seq![root_component()]
    } else {
        Seq::<Seq<char>>::empty()
    }) + (if starts_with_cur(s) {
        seq![cur_component()]
    } else {
        Seq::<Seq<char>>::empty()
    }) + body_components(s)
}

/// The index of the last occurrence of `c` in `s`, if any.
pub open spec fn last_index_of(s: Seq<char>, c: char) -> Option<int>
    decreases s.len(),
{
    if s.len() == 0 {
        None
    } else if s.last() == c {
        Some(s.len() - 1)
    } else {
        last_index_of(s.drop_last(), c)
    }
}

/// A found position holds `c` and nothing after it does; `None` means `c`
/// does not occur.
pub proof fn lemma_last_index_sound(s: Seq<char>, c: char)
    ensures
        last_index_of(s, c) matches Some(i) ==> (0 <= i < s.len() && s[i] == c && forall|j: int|
            i < j < s.len() ==> s[j] != c),
        last_index_of(s, c) is None ==> forall|j: int| 0 <= j < s.len() ==> s[j] != c,
    decreases s.len(),
{
    if s.len() > 0 && s.last() != c {
        lemma_last_index_sound(s.drop_last(), c);
        assert forall|j: int| 0 <= j < s.len() - 1 implies s[j] == s.drop_last()[j] by {}
    }
}

/// Characterizes `last_index_of` by its meaning: the last position holding `c`.
pub proof fn lemma_last_index_found(s: Seq<char>, c: char, i: int)
    requires
        0 <= i < s.len(),
        s[i] == c,
        forall|j: int| i < j < s.len() ==> s[j] != c,
    ensures
        last_index_of(s, c) == Some(i),
    decreases s.len(),
{
    if i < s.len() - 1 {
        lemma_last_index_found(s.drop_last(), c, i);
    }
}

/// `last_index_of` is `None` where `c` does not occur.
pub proof fn lemma_last_index_absent(s: Seq<char>, c: char)
    requires
        forall|j: int| 0 <= j < s.len() ==> s[j] != c,
    ensures
        last_index_of(s, c) is None,
    decreases s.len(),
{
    if s.len() > 0 {
        lemma_last_index_absent(s.drop_last(), c);
    }
}

/// The number of leading characters of a path that come before its
/// segments: its root `/`, or its leading `.` segment.
pub open spec fn prefix_len(p: Seq<char>) -> int {
    if is_absolute(p) || starts_with_cur(p) {
        1
    } else {
        0
    }
}

/// The path without its last segment, and that segment. The segments are
/// the parts after the first `k` characters between `/`s; the `/` before the
/// last segment goes with it.
pub open spec fn split_last_segment(p: Seq<char>, k: int) -> (Seq<char>, Seq<char>) {
    match last_index_of(p.skip(k), '/') {
        Some(i) => (p.take(k + i), p.skip(k + i + 1)),
        None => (p.take(k), p.skip(k)),
    }
}

/// Whether a segment is a component: neither empty nor `.`.
pub open spec fn names_component(seg: Seq<char>) -> bool {
    seg.len() > 0 && seg != cur_component()
}

/// `p` with segments removed from its end, up to and including the last
/// segment that is a component, where there is one after the first `k`
/// characters.
pub open spec fn pop_last_component(p: Seq<char>, k: int) -> Option<Seq<char>>
    decreases p.len(),
{
    if k < 0 || p.len() <= k {
        None
    } else {
        proof {
            lemma_last_index_sound(p.skip(k), '/');
        }
        let (rest, seg) = split_last_segment(p, k);
        if names_component(seg) {
            Some(rest)
        } else {
            pop_last_component(rest, k)
        }
    }
}

/// `p` without the segments at its end, after the first `k` characters,
/// that are not components.
pub open spec fn trim_end_segments(p: Seq<char>, k: int) -> Seq<char>
    decreases p.len(),
{
    if k < 0 || p.len() <= k {
        p
    } else {
        proof {
            lemma_last_index_sound(p.skip(k), '/');
        }
        let (rest, seg) = split_last_segment(p, k);
        if names_component(seg) {
            p
        } else {
            trim_end_segments(rest, k)
        }
    }
}

/// `Path::parent` on the text of a path: the text without its last
/// component, then without the `/`s and `.` segments that end what is left;
/// the empty path for a path that is only a leading `.`; none for the root
/// or a path without components. Other `.` segments and doubled `/`s stay.
pub open spec fn parent_text(p: Seq<char>) -> Option<Seq<char>> {
    let k = prefix_len(p);
    match pop_last_component(p, k) {
        Some(r) => Some(trim_end_segments(r, k)),
        None => if starts_with_cur(p) {
            Some(Seq::<char>::empty())
        } else {
            None
        },
    }
}

/// `PathBuf::join` with one component: the root replaces the path;
/// otherwise a `/` is put between where the path is not empty and does not
/// end in one.
pub open spec fn join_text(base: Seq<char>, c: Seq<char>) -> Seq<char> {
    if c.len() > 0 && c[0] == '/' {
        c
    } else if base.len() > 0 && base.last() != '/' {
        base + seq!['/'] + c
    } else {
        base + c
    }
}

/// Walks the components of an include argument from a starting directory:
/// `.` stays, `..` goes to the parent, anything else is joined; once the
/// walk has left every directory it stays outside.
pub open spec fn walk_text(cur: Option<Seq<char>>, rest: Seq<Seq<char>>) -> Option<Seq<char>>
    decreases rest.len(),
{
    if rest.len() == 0 {
        cur
    } else {
        let c = rest[0];
        let next = if c == cur_component() {
            cur
        } else if c == parent_component() {
            match cur {
                Some(x) => parent_text(x),
                None => None,
            }
        } else {
            match cur {
                Some(x) => Some(join_text(x, c)),
                None => None,
            }
        };
        walk_text(next, rest.drop_first())
    }
}

/// The file that `#include arg` names from within `current`: the text of
/// the directory of `current`, walked through the components of `arg`, or
/// `arg` itself where the walk leaves the top directory.
pub open spec fn resolve_relative(current: Seq<char>, arg: Seq<char>) -> Seq<char> {
    match walk_text(parent_text(current), components(arg)) {
        Some(t) => t,
        None => arg,
    }
}

/// Whether two paths name the same file, as `PathBuf` equality decides it.
pub open spec fn same_path(a: Seq<char>, b: Seq<char>) -> bool {
    components(a) == components(b)
}

/// Naming the same file is symmetric.
pub proof fn lemma_same_path_symmetric(a: Seq<char>, b: Seq<char>)
    ensures
        same_path(a, b) == same_path(b, a),
{
}

/// Whether a character vector is the current-directory segment.
fn is_cur_segment(seg: &[char]) -> (r: bool)
    ensures
        r == (seg@ == cur_component()),
{
    let r = seg.len() == 1 && seg[0] == '.';
    proof {
        if seg@.len() == 1 && seg@[0] == '.' {
            assert(seg@ =~= cur_component());
        }
    }
    r
}

/// Whether a character vector is the parent-directory segment.
fn is_parent_segment(seg: &[char]) -> (r: bool)
    ensures
        r == (seg@ == parent_component()),
{
    let r = seg.len() == 2 && seg[0] == '.' && seg[1] == '.';
    proof {
        if seg@.len() == 2 && seg@[0] == '.' && seg@[1] == '.' {
            assert(seg@ =~= parent_component());
        }
    }
    r
}

/// The components of a path.
pub fn path_components(p: &[char]) -> (r: Vec<Vec<char>>)
    ensures
        views_of(r@) == components(p@),
{
    let n = p.len();
    let mut out: Vec<Vec<char>> = Vec::new();
    let absolute = n > 0 && p[0] == '/';
    if absolute {
        let mut r: Vec<char> = Vec::new();
        r.push('/');
        assert(r@ =~= root_component());
        out.push(r);
    }
    if !absolute && n >= 1 && p[0] == '.' && (n == 1 || p[1] == '/') {
        let mut c: Vec<char> = Vec::new();
        c.push('.');
        assert(c@ =~= cur_component());
        let ghost before = views_of(out@);
        out.push(c);
        assert(views_of(out@) =~= before.push(cur_component()));
    }
    let ghost prefix = views_of(out@);
    proof {
        assert(prefix =~= (if is_absolute(p@) {
            seq![root_component()]
        } else {
            Seq::<Seq<char>>::empty()
        }) + (if starts_with_cur(p@) {
            seq![cur_component()]
        } else {
            Seq::<Seq<char>>::empty()
        }));
    }
    let mut start: usize = 0;
    let mut done = false;
    assert(p@.skip(0) =~= p@);
    while !done
        invariant
            n == p@.len(),
            start <= n,
            prefix + body_components(p@) == components(p@),
            !done ==> views_of(out@) + body_components(p@.skip(start as int)) == prefix
                + body_components(p@),
            done ==> views_of(out@) == prefix + body_components(p@),
        decreases n - start + (if done {
            0int
        } else {
            1int
        }),
    {
        let ghost rest = p@.skip(start as int);
        proof {
            lemma_first_index_sound(rest, '/');
        }
        let (end, last) = match find_char(p, start, '/') {
            Some(i) => (i, false),
            None => (n, true),
        };
        let seg = sub_chars(p, start, end);
        let ghost old_out = views_of(out@);
        if seg.len() > 0 && !is_cur_segment(seg.as_slice()) {
            out.push(seg);
            assert(views_of(out@) =~= old_out.push(seg@));
        }
        proof {
            if last {
                assert(seg@ =~= rest);
                assert(views_of(out@) =~= old_out + keep_segment(seg@));
                assert(body_components(rest) == keep_segment(rest));
            } else {
                assert(seg@ =~= rest.take(end - start));
                assert(rest.skip(end - start + 1) =~= p@.skip(end + 1));
                assert(body_components(rest) == keep_segment(seg@) + body_components(
                    p@.skip(end + 1),
                ));
                assert(views_of(out@) =~= old_out + keep_segment(seg@));
                assert(old_out + keep_segment(seg@) + body_components(p@.skip(end + 1)) =~= old_out
                    + (keep_segment(seg@) + body_components(p@.skip(end + 1))));
            }
        }
        if last {
            done = true;
            start = n;
        } else {
            start = end + 1;
        }
    }
    out
}

/// Whether two component lists are equal.
pub fn components_eq(a: &Vec<Vec<char>>, b: &Vec<Vec<char>>) -> (r: bool)
    ensures
        r == (views_of(a@) == views_of(b@)),
{
    if a.len() != b.len() {
        assert(views_of(a@).len() != views_of(b@).len());
        return false;
    }
    let mut i: usize = 0;
    while i < a.len()
        invariant
            a@.len() == b@.len(),
            i <= a@.len(),
            forall|k: int| 0 <= k < i ==> a@[k]@ == b@[k]@,
        decreases a.len() - i,
    {
        if !chars_eq(a[i].as_slice(), b[i].as_slice()) {
            assert(views_of(a@)[i as int] != views_of(b@)[i as int]);
            return false;
        }
        i = i + 1;
    }
    assert(views_of(a@) =~= views_of(b@));
    true
}

/// Whether two paths name the same file.
pub fn paths_equal(a: &[char], b: &[char]) -> (r: bool)
    ensures
        r == same_path(a@, b@),
{
    let ca = path_components(a);
    let cb = path_components(b);
    components_eq(&ca, &cb)
}

/// The position of the last `/` in `p[k..len]`, if any.
fn last_sep(p: &[char], k: usize, len: usize) -> (r: Option<usize>)
    requires
        k <= len <= p@.len(),
    ensures
        match r {
            Some(j) => k <= j < len && last_index_of(p@.take(len as int).skip(k as int), '/')
                == Some(j - k),
            None => last_index_of(p@.take(len as int).skip(k as int), '/') is None,
        },
{
    let ghost b = p@.take(len as int).skip(k as int);
    let mut j = len;
    while j > k
        invariant
            k <= j <= len <= p@.len(),
            b == p@.take(len as int).skip(k as int),
            forall|m: int| j <= m < len ==> p@[m] != '/',
        decreases j,
    {
        if p[j - 1] == '/' {
            proof {
                assert forall|m: int| j - 1 - k < m < b.len() implies b[m] != '/' by {
                    assert(b[m] == p@[m + k]);
                }
                lemma_last_index_found(b, '/', j - 1 - k);
            }
            return Some(j - 1);
        }
        j = j - 1;
    }
    proof {
        assert forall|m: int| 0 <= m < b.len() implies b[m] != '/' by {
            assert(b[m] == p@[m + k]);
        }
        lemma_last_index_absent(b, '/');
    }
    None
}

/// Splits `p[..len]` at its last segment (see [`split_last_segment`]):
/// the length of the rest and where the segment starts.
fn split_at_last_segment(p: &[char], k: usize, len: usize) -> (r: (usize, usize))
    requires
        k < len <= p@.len(),
    ensures
        k <= r.0 < len,
        r.0 <= r.1 <= len,
        split_last_segment(p@.take(len as int), k as int) == (
            p@.take(r.0 as int),
            p@.subrange(r.1 as int, len as int),
        ),
{
    let ghost q = p@.take(len as int);
    match last_sep(p, k, len) {
        Some(j) => {
            assert(q.take(j as int) =~= p@.take(j as int));
            assert(q.skip(j + 1) =~= p@.subrange(j + 1, len as int));
            (j, j + 1)
        },
        None => {
            assert(q.take(k as int) =~= p@.take(k as int));
            assert(q.skip(k as int) =~= p@.subrange(k as int, len as int));
            (k, k)
        },
    }
}

/// Whether `p[from..to]` is a component: neither empty nor `.`.
fn segment_names_component(p: &[char], from: usize, to: usize) -> (r: bool)
    requires
        from <= to <= p@.len(),
    ensures
        r == names_component(p@.subrange(from as int, to as int)),
{
    let seg = sub_chars(p, from, to);
    seg.len() > 0 && !is_cur_segment(seg.as_slice())
}

/// The length of `p[..len]` once its last component is removed (see
/// [`pop_last_component`]).
fn pop_len(p: &[char], k: usize, len: usize) -> (r: Option<usize>)
    requires
        k <= len <= p@.len(),
    ensures
        match r {
            Some(n) => k <= n < len && pop_last_component(p@.take(len as int), k as int) == Some(
                p@.take(n as int),
            ),
            None => pop_last_component(p@.take(len as int), k as int) is None,
        },
    decreases len,
{
    if len <= k {
        return None;
    }
    let (rest, seg_start) = split_at_last_segment(p, k, len);
    assert(p@.take(len as int).take(rest as int) =~= p@.take(rest as int));
    if segment_names_component(p, seg_start, len) {
        Some(rest)
    } else {
        pop_len(p, k, rest)
    }
}

/// The length of `p[..len]` without the segments at its end that are not
/// components (see [`trim_end_segments`]).
fn trim_len(p: &[char], k: usize, len: usize) -> (r: usize)
    requires
        k <= len <= p@.len(),
    ensures
        r <= len,
        trim_end_segments(p@.take(len as int), k as int) == p@.take(r as int),
    decreases len,
{
    if len <= k {
        return len;
    }
    let (rest, seg_start) = split_at_last_segment(p, k, len);
    if segment_names_component(p, seg_start, len) {
        len
    } else {
        trim_len(p, k, rest)
    }
}

/// `Path::parent` on the text of `p`: the length of the parent, a prefix
/// of `p` (see [`parent_text`]).
pub fn parent_len(p: &[char]) -> (r: Option<usize>)
    ensures
        match r {
            Some(n) => n <= p@.len() && parent_text(p@) == Some(p@.take(n as int)),
            None => parent_text(p@) is None,
        },
{
    let n = p.len();
    let absolute = n > 0 && p[0] == '/';
    let cur = !absolute && n >= 1 && p[0] == '.' && (n == 1 || p[1] == '/');
    let k: usize = if absolute || cur {
        1
    } else {
        0
    };
    assert(p@.take(n as int) =~= p@);
    match pop_len(p, k, n) {
        Some(m) => Some(trim_len(p, k, m)),
        None => {
            if cur {
                assert(p@.take(0) =~= Seq::<char>::empty());
                Some(0)
            } else {
                None
            }
        },
    }
}

/// `PathBuf::join` of `base` with the component `c` (see [`join_text`]).
fn join_chars(base: &[char], c: &[char]) -> (r: Vec<char>)
    ensures
        r@ == join_text(base@, c@),
{
    if c.len() > 0 && c[0] == '/' {
        return sub_chars(c, 0, c.len());
    }
    let mut out = sub_chars(base, 0, base.len());
    if base.len() > 0 && base[base.len() - 1] != '/' {
        out.push('/');
    }
    let ghost lead = out@;
    let mut i: usize = 0;
    while i < c.len()
        invariant
            i <= c@.len(),
            out@ == lead + c@.take(i as int),
        decreases c.len() - i,
    {
        out.push(c[i]);
        assert(c@.take(i as int + 1) =~= c@.take(i as int).push(c@[i as int]));
        i = i + 1;
    }
    assert(c@.take(c@.len() as int) =~= c@);
    out
}

/// The parent of the text `x`, if it has one.
fn parent_chars(x: &[char]) -> (r: Option<Vec<char>>)
    ensures
        match r {
            Some(y) => parent_text(x@) == Some(y@),
            None => parent_text(x@) is None,
        },
{
    match parent_len(x) {
        Some(n) => Some(sub_chars(x, 0, n)),
        None => None,
    }
}

/// The views of an optional text.
pub open spec fn opt_chars_view(o: Option<Vec<char>>) -> Option<Seq<char>> {
    match o {
        Some(x) => Some(x@),
        None => None,
    }
}

/// The file that `#include arg` names from within `current` (see
/// [`resolve_relative`]).
pub fn resolve_relative_path(current: &[char], arg: &[char]) -> (r: Vec<char>)
    ensures
        r@ == resolve_relative(current@, arg@),
{
    let arg_cs = path_components(arg);
    let mut cur = parent_chars(current);
    let ghost av = views_of(arg_cs@);
    let mut i: usize = 0;
    assert(av.skip(0) =~= av);
    while i < arg_cs.len()
        invariant
            i <= arg_cs@.len(),
            av == views_of(arg_cs@),
            av == components(arg@),
            walk_text(opt_chars_view(cur), av.skip(i as int)) == walk_text(
                parent_text(current@),
                components(arg@),
            ),
        decreases arg_cs.len() - i,
    {
        let c = &arg_cs[i];
        let ghost old_cur = opt_chars_view(cur);
        if is_cur_segment(c.as_slice()) {
        } else if is_parent_segment(c.as_slice()) {
            cur = match cur {
                Some(x) => parent_chars(x.as_slice()),
                None => None,
            };
        } else {
            cur = match cur {
                Some(x) => Some(join_chars(x.as_slice(), c.as_slice())),
                None => None,
            };
        }
        proof {
            assert(av.skip(i as int).drop_first() =~= av.skip(i as int + 1));
            assert(av.skip(i as int)[0] == c@);
            assert(walk_text(old_cur, av.skip(i as int)) == walk_text(
                opt_chars_view(cur),
                av.skip(i as int).drop_first(),
            ));
        }
        i = i + 1;
    }
    assert(av.skip(i as int).len() == 0);
    match cur {
        Some(x) => x,
        None => sub_chars(arg, 0, arg.len()),
    }
}

/// A component that names a file or directory: not `.`, `..` or the root.
pub open spec fn is_name_component(c: Seq<char>) -> bool {
    c != cur_component() && c != parent_component() && c != root_component()
}

/// Joins each of `names` in turn onto `base`.
pub open spec fn join_all(base: Seq<char>, names: Seq<Seq<char>>) -> Seq<char>
    decreases names.len(),
{
    if names.len() == 0 {
        base
    } else {
        join_all(join_text(base, names[0]), names.drop_first())
    }
}

/// Walking through names only joins them.
proof fn lemma_walk_names(x: Seq<char>, rest: Seq<Seq<char>>)
    requires
        forall|k: int| 0 <= k < rest.len() ==> is_name_component(#[trigger] rest[k]),
    ensures
        walk_text(Some(x), rest) == Some(join_all(x, rest)),
    decreases rest.len(),
{
    if rest.len() > 0 {
        assert forall|k: int| 0 <= k < rest.drop_first().len() implies is_name_component(
            #[trigger] rest.drop_first()[k],
        ) by {
            assert(rest.drop_first()[k] == rest[k + 1]);
        }
        assert(is_name_component(rest[0]));
        lemma_walk_names(join_text(x, rest[0]), rest.drop_first());
    }
}

/// An include argument made of names only is found in the directory of the
/// including file: each name is joined in turn onto the text of that
/// directory.
pub proof fn law_include_from_own_directory(current: Seq<char>, arg: Seq<char>)
    requires
        parent_text(current) is Some,
        forall|k: int|
            0 <= k < components(arg).len() ==> is_name_component(#[trigger] components(arg)[k]),
    ensures
        resolve_relative(current, arg) == join_all(parent_text(current)->Some_0, components(arg)),
{
    lemma_walk_names(parent_text(current)->Some_0, components(arg));
}

} // verus!
