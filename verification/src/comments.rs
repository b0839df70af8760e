//! Comment handling: finding `//` and (nested) `/* */` comments outside of
//! quoted text, and blanking them out while keeping every line break.
//!
//! The scan walks over each pair of neighbouring characters. Comment spans
//! are measured in UTF-8 byte offsets of the text, as `str::char_indices`
//! numbers them; blanking then compares those offsets with character
//! positions, which agree for ASCII text.
use vstd::prelude::*;
use vstd::utf8::{encode_utf8, encode_scalar};

use crate::errors::{ErrorView, LocationView, PreprocessorError, PreprocessorLocation};
use crate::preprocessor::PreprocessorState;
use crate::text::{
    chars_of, first_index_of, lemma_first_index_absent, lemma_first_index_found,
    lemma_first_index_sound, lines, string_of,
};

verus! {

/// An open comment: a line comment, or a block comment with its nesting depth,
/// each with the byte offset where it starts.
pub enum CommentState {
    Line(int),
    Block(int, int),
}

/// Where the scan stands after some pairs of characters.
pub struct ScanState {
    pub comment: Option<CommentState>,
    pub quote: Option<char>,
    pub spans: Seq<(int, int)>,
    pub line: int,
}

/// The byte offset of the character at position `k`.
pub open spec fn byte_offset(s: Seq<char>, k: int) -> int {
    encode_utf8(s.take(k)).len() as int
}

/// The number of bytes in the UTF-8 encoding of `s`.
pub open spec fn byte_len(s: Seq<char>) -> int {
    encode_utf8(s).len() as int
}

/// The state before any pair: inside a quote if the text starts with one.
pub open spec fn scan_init(s: Seq<char>) -> ScanState {
    ScanState {
        comment: None,
        quote: if s.len() > 0 && (s[0] == '\'' || s[0] == '"') {
            Some(s[0])
        } else {
            None
        },
        spans: seq![],
        line: 1,
    }
}

/// One step of the scan, for the characters `c0` at byte `i0` and `c1` at byte `i1`.
pub open spec fn scan_step(st: ScanState, c0: char, c1: char, i0: int, i1: int) -> ScanState {
    if c0 == '/' && c1 == '/' && st.quote is None && st.comment is None {
        ScanState {
            comment: Some(CommentState::Line(i0)),
            quote: st.quote,
            spans: st.spans,
            line: st.line,
        }
    } else if c0 == '/' && c1 == '*' && st.quote is None {
        match st.comment {
            None => ScanState {
                comment: Some(CommentState::Block(i0, 1)),
                quote: st.quote,
                spans: st.spans,
                line: st.line,
            },
            Some(CommentState::Block(i, b)) => ScanState {
                comment: Some(CommentState::Block(i, b + 1)),
                quote: st.quote,
                spans: st.spans,
                line: st.line,
            },
            Some(CommentState::Line(_)) => st,
        }
    } else if c0 == '*' && c1 == '/' {
        match st.comment {
            Some(CommentState::Block(i, b)) => if b <= 1 {
                ScanState { comment: None, quote: st.quote, spans: st.spans.push((i, i1)), line: st.line }
            } else {
                ScanState {
                    comment: Some(CommentState::Block(i, b - 1)),
                    quote: st.quote,
                    spans: st.spans,
                    line: st.line,
                }
            },
            _ => st,
        }
    } else if c1 == '\n' {
        match st.comment {
            Some(CommentState::Line(i)) => ScanState {
                comment: None,
                quote: st.quote,
                spans: st.spans.push((i, i0)),
                line: st.line + 1,
            },
            _ => ScanState {
                comment: st.comment,
                quote: st.quote,
                spans: st.spans,
                line: st.line + 1,
            },
        }
    } else if (c1 == '"' || c1 == '\'') && st.comment is None {
        match st.quote {
            None => ScanState { comment: st.comment, quote: Some(c1), spans: st.spans, line: st.line },
            Some(q) => if c1 == q && c0 != '\\' {
                ScanState { comment: st.comment, quote: None, spans: st.spans, line: st.line }
            } else {
                st
            },
        }
    } else {
        st
    }
}

/// The state after the first `n` pairs of neighbouring characters.
pub open spec fn scan_upto(s: Seq<char>, n: nat) -> ScanState
    decreases n,
{
    if n == 0 {
        scan_init(s)
    } else {
        scan_step(
            scan_upto(s, (n - 1) as nat),
            s[n - 1],
            s[n as int],
            byte_offset(s, n - 1),
            byte_offset(s, n as int),
        )
    }
}

/// The number of pairs of neighbouring characters.
pub open spec fn pair_count(s: Seq<char>) -> nat {
    if s.len() == 0 {
        0
    } else {
        (s.len() - 1) as nat
    }
}

/// The error for a block comment that is never closed.
pub open spec fn unclosed_comment_error(file: Seq<char>, line: int) -> ErrorView {
    ErrorView {
        loc: Some(LocationView { file, line }),
        text: Seq::<char>::empty(),
        error: "unclosed block comment found"@,
    }
}

/// The comment spans of `s` (inclusive byte ranges), or the error for an
/// unclosed block comment; a line comment that runs to the end of the text
/// ends at the byte length of the text.
pub open spec fn comment_spans(s: Seq<char>, file: Seq<char>) -> Result<Seq<(int, int)>, ErrorView> {
    let st = scan_upto(s, pair_count(s));
    match st.comment {
        Some(CommentState::Line(i)) => Ok(st.spans.push((i, byte_len(s)))),
        Some(CommentState::Block(_, _)) => Err(unclosed_comment_error(file, st.line)),
        None => Ok(st.spans),
    }
}

/// Spans that are each well formed and come one after another.
pub open spec fn spans_ordered(sp: Seq<(int, int)>) -> bool {
    &&& forall|k: int| 0 <= k < sp.len() ==> sp[k].0 <= sp[k].1
    &&& forall|k: int, l: int| 0 <= k < l < sp.len() ==> sp[k].1 <= sp[l].0
}

/// Whether position `i` lies in one of the spans.
pub open spec fn covered(sp: Seq<(int, int)>, i: int) -> bool {
    exists|k: int| 0 <= k < sp.len() && #[trigger] sp[k].0 <= i <= sp[k].1
}

/// `s` with every covered position that is not a line feed replaced by a space.
pub open spec fn blank_spans(s: Seq<char>, sp: Seq<(int, int)>) -> Seq<char> {
    Seq::new(s.len(), |i: int| if covered(sp, i) && s[i] != '\n' { ' ' } else { s[i] })
}

/// The text with its comments blanked out, or the scan's error.
pub open spec fn without_comments(s: Seq<char>, file: Seq<char>) -> Result<Seq<char>, ErrorView> {
    match comment_spans(s, file) {
        Ok(sp) => Ok(blank_spans(s, sp)),
        Err(e) => Err(e),
    }
}

/// The views of exec spans.
pub open spec fn spans_view(v: Seq<(usize, usize)>) -> Seq<(int, int)> {
    v.map_values(|p: (usize, usize)| (p.0 as int, p.1 as int))
}

/// UTF-8 encoding distributes over concatenation.
pub proof fn lemma_encode_concat(a: Seq<char>, b: Seq<char>)
    ensures
        encode_utf8(a + b) == encode_utf8(a) + encode_utf8(b),
    decreases a.len(),
{
    if a.len() == 0 {
        assert(a + b =~= b);
        assert(encode_utf8(a) =~= Seq::<u8>::empty());
        assert(Seq::<u8>::empty() + encode_utf8(b) =~= encode_utf8(b));
    } else {
        assert((a + b).drop_first() =~= a.drop_first() + b);
        lemma_encode_concat(a.drop_first(), b);
        assert(encode_utf8(a + b) =~= encode_scalar(a[0] as u32) + encode_utf8(a.drop_first() + b));
        assert(encode_scalar(a[0] as u32) + (encode_utf8(a.drop_first()) + encode_utf8(b))
            =~= (encode_scalar(a[0] as u32) + encode_utf8(a.drop_first())) + encode_utf8(b));
    }
}

/// The byte offset grows by the width of each character and stays within the text.
pub proof fn lemma_byte_offset_step(s: Seq<char>, k: int)
    requires
        0 <= k < s.len(),
    ensures
        byte_offset(s, k + 1) == byte_offset(s, k) + encode_scalar(s[k] as u32).len(),
        byte_offset(s, k + 1) <= byte_len(s),
{
    assert(s.take(k + 1) =~= s.take(k) + seq![s[k]]);
    lemma_encode_concat(s.take(k), seq![s[k]]);
    assert(seq![s[k]].drop_first() =~= Seq::<char>::empty());
    assert(encode_utf8(seq![s[k]]) =~= encode_scalar(s[k] as u32) + encode_utf8(
        Seq::<char>::empty(),
    ));
    assert(encode_utf8(seq![s[k]]) =~= encode_scalar(s[k] as u32));
    assert(s =~= s.take(k + 1) + s.skip(k + 1));
    lemma_encode_concat(s.take(k + 1), s.skip(k + 1));
}

/// The number of bytes that `c` takes in UTF-8.
pub fn utf8_width(c: char) -> (w: usize)
    ensures
        w == encode_scalar(c as u32).len(),
{
    let v = c as u32;
    if v <= 0x7F {
        1
    } else if v <= 0x7FF {
        2
    } else if v <= 0xFFFF {
        3
    } else {
        4
    }
}

/// The scan state that the exec variables stand for.
pub open spec fn exec_scan_state(
    kind: u8,
    cstart: usize,
    depth: usize,
    quote: Option<char>,
    spans: Seq<(usize, usize)>,
    line: usize,
) -> ScanState {
    ScanState {
        comment: if kind == 1 {
            Some(CommentState::Line(cstart as int))
        } else if kind == 2 {
            Some(CommentState::Block(cstart as int, depth as int))
        } else {
            None
        },
        quote,
        spans: spans_view(spans),
        line: line as int,
    }
}

impl<F, S> PreprocessorState<F, S> {
    /// Finds the comment spans of `s` as inclusive byte ranges, in order;
    /// fails where a block comment is never closed, naming `file` and the
    /// line that the scan reached.
    pub fn find_comment_spans(s: &str, file: &str) -> (r: Result<Vec<(usize, usize)>, PreprocessorError>)
        ensures
            match r {
                Ok(v) => comment_spans(s@, file@) == Ok::<Seq<(int, int)>, ErrorView>(
                    spans_view(v@),
                ) && spans_ordered(spans_view(v@)),
                Err(e) => comment_spans(s@, file@) == Err::<Seq<(int, int)>, ErrorView>(e@),
            },
    {
        let v = chars_of(s);
        let n = v.len();
        let total = s.as_bytes().len();
        let mut kind: u8 = 0;
        let mut cstart: usize = 0;
        let mut depth: usize = 0;
        let mut quote: Option<char> = if n > 0 && (v[0] == '\'' || v[0] == '"') {
            Some(v[0])
        } else {
            None
        };
        let mut spans: Vec<(usize, usize)> = Vec::new();
        let mut line: usize = 1;
        let mut off: usize = 0;
        let mut k: usize = 0;
        assert(s@.take(0) =~= Seq::<char>::empty());
        assert(spans_view(spans@) =~= Seq::<(int, int)>::empty());
        while k + 1 < n
            invariant
                v@ == s@,
                n == s@.len(),
                total == byte_len(s@),
                k + 1 <= n || n == 0,
                k <= n,
                off == byte_offset(s@, k as int),
                off <= total,
                line <= k + 1,
                depth <= k + 1,
                kind <= 2,
                kind == 2 ==> depth >= 1,
                exec_scan_state(kind, cstart, depth, quote, spans@, line) == scan_upto(
                    s@,
                    k as nat,
                ),
                spans_ordered(spans_view(spans@)),
                forall|j: int| 0 <= j < spans@.len() ==> spans@[j].1 <= off,
                kind != 0 ==> cstart <= off,
                kind != 0 ==> forall|j: int| 0 <= j < spans@.len() ==> spans@[j].1 <= cstart,
            decreases n - k,
        {
            let c0 = v[k];
            let c1 = v[k + 1];
            proof {
                lemma_byte_offset_step(s@, k as int);
                lemma_byte_offset_step(s@, k as int + 1);
            }
            let i0 = off;
            let i1 = off + utf8_width(c0);
            let ghost old_spans = spans@;
            if c0 == '/' && c1 == '/' && quote.is_none() && kind == 0 {
                kind = 1;
                cstart = i0;
            } else if c0 == '/' && c1 == '*' && quote.is_none() {
                if kind == 0 {
                    kind = 2;
                    cstart = i0;
                    depth = 1;
                } else if kind == 2 {
                    depth = depth + 1;
                }
            } else if c0 == '*' && c1 == '/' {
                if kind == 2 {
                    if depth <= 1 {
                        spans.push((cstart, i1));
                        kind = 0;
                    } else {
                        depth = depth - 1;
                    }
                }
            } else if c1 == '\n' {
                line = line + 1;
                if kind == 1 {
                    spans.push((cstart, i0));
                    kind = 0;
                }
            } else if (c1 == '"' || c1 == '\'') && kind == 0 {
                match quote {
                    None => {
                        quote = Some(c1);
                    },
                    Some(q) => {
                        if c1 == q && c0 != '\\' {
                            quote = None;
                        }
                    },
                }
            }
            proof {
                assert(spans_view(spans@) =~= spans_view(old_spans) || spans_view(spans@)
                    =~= spans_view(old_spans).push((spans@.last().0 as int, spans@.last().1 as int)));
                assert(exec_scan_state(kind, cstart, depth, quote, spans@, line) =~= scan_step(
                    scan_upto(s@, k as nat),
                    s@[k as int],
                    s@[k + 1],
                    byte_offset(s@, k as int),
                    byte_offset(s@, k + 1),
                ));
            }
            off = i1;
            k = k + 1;
        }
        let ghost st = scan_upto(s@, k as nat);
        assert(k as nat == pair_count(s@));
        if kind == 2 {
            let e = PreprocessorError {
                loc: Some(PreprocessorLocation { file: String::from_str(file), line }),
                text: String::new(),
                error: String::from_str("unclosed block comment found"),
            };
            return Err(e);
        }
        if kind == 1 {
            proof {
                assert(byte_offset(s@, k as int) <= byte_len(s@)) by {
                    assert(s@ =~= s@.take(k as int) + s@.skip(k as int));
                    lemma_encode_concat(s@.take(k as int), s@.skip(k as int));
                }
            }
            let ghost old_spans = spans@;
            spans.push((cstart, total));
            assert(spans_view(spans@) =~= spans_view(old_spans).push((cstart as int, total as int)));
        }
        Ok(spans)
    }

    /// Replaces every character inside a comment with a space, keeping line
    /// feeds, so that the text keeps its length and its line structure.
    pub fn remove_comments(s: &str, file: &str) -> (r: Result<String, PreprocessorError>)
        ensures
            match r {
                Ok(t) => without_comments(s@, file@) == Ok::<Seq<char>, ErrorView>(t@),
                Err(e) => without_comments(s@, file@) == Err::<Seq<char>, ErrorView>(e@),
            },
    {
        let blocks = match Self::find_comment_spans(s, file) {
            Ok(b) => b,
            Err(e) => {
                return Err(e);
            },
        };
        let ghost sp = spans_view(blocks@);
        let mut out = chars_of(s);
        let n = out.len();
        let m = blocks.len();
        let mut blk: usize = 0;
        let mut i: usize = 0;
        while i < n
            invariant
                n == s@.len(),
                m == blocks@.len(),
                sp == spans_view(blocks@),
                spans_ordered(sp),
                out@.len() == n,
                i <= n,
                blk <= m,
                forall|b: int| 0 <= b < blk ==> sp[b].1 < i,
                forall|j: int| 0 <= j < i ==> out@[j] == blank_spans(s@, sp)[j],
                forall|j: int| i <= j < n ==> out@[j] == s@[j],
            decreases n - i,
        {
            while blk < m && i > blocks[blk].1
                invariant
                    m == blocks@.len(),
                    sp == spans_view(blocks@),
                    blk <= m,
                    forall|b: int| 0 <= b < blk ==> sp[b].1 < i,
                decreases m - blk,
            {
                blk = blk + 1;
            }
            if blk == m {
                assert forall|j: int| i <= j < n implies out@[j] == blank_spans(s@, sp)[j] by {
                    assert(!covered(sp, j));
                }
                i = n;
            } else {
            proof {
                assert(covered(sp, i as int) <==> sp[blk as int].0 <= i) by {
                    if covered(sp, i as int) {
                        let b = choose|b: int| 0 <= b < sp.len() && #[trigger] sp[b].0 <= i <= sp[b].1;
                        if b != blk as int {
                            assert(b > blk);
                            assert(sp[blk as int].1 <= sp[b].0);
                        }
                    }
                }
            }
            if blocks[blk].0 <= i && out[i] != '\n' {
                out.set(i, ' ');
            }
            i = i + 1;
            }
        }
        assert(out@ =~= blank_spans(s@, sp));
        Ok(string_of(out.as_slice()))
    }
}

/// Two texts with the same length and line feeds in the same places have
/// the same number of lines.
pub proof fn lemma_lines_same_breaks(a: Seq<char>, b: Seq<char>)
    requires
        a.len() == b.len(),
        forall|i: int| 0 <= i < a.len() ==> (a[i] == '\n') == (b[i] == '\n'),
    ensures
        lines(a).len() == lines(b).len(),
    decreases a.len(),
{
    if a.len() > 0 {
        lemma_first_index_sound(a, '\n');
        lemma_first_index_sound(b, '\n');
        match first_index_of(a, '\n') {
            Some(i) => {
                lemma_first_index_found(b, '\n', i);
                lemma_lines_same_breaks(a.skip(i + 1), b.skip(i + 1));
            },
            None => {
                lemma_first_index_absent(b, '\n');
            },
        }
    }
}

/// Removing comments keeps the layout of the text: the same length, line
/// feeds exactly where they were, every other character kept or turned into a
/// space, and so the same lines at the same numbers.
pub proof fn law_comment_removal_keeps_layout(s: Seq<char>, file: Seq<char>)
    requires
        without_comments(s, file) is Ok,
    ensures
        ({
            let t = without_comments(s, file)->Ok_0;
            &&& t.len() == s.len()
            &&& forall|i: int| 0 <= i < s.len() ==> (t[i] == '\n') == (s[i] == '\n')
            &&& forall|i: int| 0 <= i < s.len() ==> t[i] == s[i] || t[i] == ' '
            &&& lines(t).len() == lines(s).len()
        }),
{
    let t = without_comments(s, file)->Ok_0;
    lemma_lines_same_breaks(t, s);
}

/// Without a `/`, no comment ever opens.
proof fn lemma_scan_without_slash(s: Seq<char>, n: nat)
    requires
        n <= pair_count(s),
        forall|i: int| 0 <= i < s.len() ==> s[i] != '/',
    ensures
        scan_upto(s, n).comment is None,
        scan_upto(s, n).spans.len() == 0,
    decreases n,
{
    if n > 0 {
        lemma_scan_without_slash(s, (n - 1) as nat);
    }
}

/// A text without a `/` has no comments, so removing comments leaves it as it is.
pub proof fn law_text_without_slash_is_unchanged(s: Seq<char>, file: Seq<char>)
    requires
        forall|i: int| 0 <= i < s.len() ==> s[i] != '/',
    ensures
        without_comments(s, file) == Ok::<Seq<char>, ErrorView>(s),
{
    lemma_scan_without_slash(s, pair_count(s));
    let sp = scan_upto(s, pair_count(s)).spans;
    assert(blank_spans(s, sp) =~= s);
}

/// Whether every character of `s` is ASCII.
pub open spec fn is_ascii_text(s: Seq<char>) -> bool {
    forall|k: int| 0 <= k < s.len() ==> (s[k] as u32) < 128
}

/// In ASCII text, byte offsets are character positions.
proof fn lemma_ascii_offsets(s: Seq<char>)
    requires
        is_ascii_text(s),
    ensures
        forall|k: int| 0 <= k <= s.len() ==> #[trigger] byte_offset(s, k) == k,
        byte_len(s) == s.len(),
{
    assert forall|k: int| 0 <= k <= s.len() implies #[trigger] byte_offset(s, k) == k by {
        lemma_ascii_offset(s, k);
    }
    assert(s.take(s.len() as int) =~= s);
    assert(byte_offset(s, s.len() as int) == s.len());
}

proof fn lemma_ascii_offset(s: Seq<char>, k: int)
    requires
        is_ascii_text(s),
        0 <= k <= s.len(),
    ensures
        byte_offset(s, k) == k,
    decreases k,
{
    if k == 0 {
        assert(s.take(0) =~= Seq::<char>::empty());
    } else {
        lemma_ascii_offset(s, k - 1);
        lemma_byte_offset_step(s, k - 1);
        assert((s[k - 1] as u32) < 128);
    }
}

/// Where an open comment starts.
pub open spec fn comment_start(c: CommentState) -> int {
    match c {
        CommentState::Line(i) => i,
        CommentState::Block(i, _) => i,
    }
}

/// Whether a comment is open after the pair ending at position `j`.
pub open spec fn open_at(s: Seq<char>, j: int) -> bool {
    1 <= j <= pair_count(s) && scan_upto(s, j as nat).comment is Some
}

/// Whether the pair ending at position `k` closes a block comment.
pub open spec fn closes_at(s: Seq<char>, k: int) -> bool {
    &&& 1 <= k <= pair_count(s)
    &&& scan_upto(s, (k - 1) as nat).comment matches Some(CommentState::Block(_, _))
    &&& scan_upto(s, k as nat).comment is None
}

/// Which positions up to `n` comments cover, by the scan's states: those
/// where a comment is open, those just before one opens, and the ends of
/// block comments.
pub open spec fn covered_by_scan(s: Seq<char>, n: int, k: int) -> bool {
    open_at(s, k) || (k + 1 <= n && open_at(s, k + 1)) || closes_at(s, k)
}

/// What the scan after `n` pairs covers: its spans, and the comment still
/// open from its start on.
pub open spec fn covered_so_far(s: Seq<char>, n: nat, k: int) -> bool {
    ||| covered(scan_upto(s, n).spans, k)
    ||| (scan_upto(s, n).comment matches Some(c) && comment_start(c) <= k)
}

/// Covering with one more span.
proof fn lemma_covered_push(sp: Seq<(int, int)>, x: (int, int), k: int)
    ensures
        covered(sp.push(x), k) == (covered(sp, k) || (x.0 <= k <= x.1)),
{
    if covered(sp, k) {
        let j = choose|j: int| 0 <= j < sp.len() && #[trigger] sp[j].0 <= k <= sp[j].1;
        assert(sp.push(x)[j] == sp[j]);
    }
    if x.0 <= k <= x.1 {
        assert(sp.push(x)[sp.len() as int] == x);
    }
    if covered(sp.push(x), k) {
        let j = choose|j: int| 0 <= j < sp.push(x).len() && #[trigger] sp.push(x)[j].0 <= k <= sp.push(
            x,
        )[j].1;
        if j < sp.len() {
            assert(sp[j] == sp.push(x)[j]);
        }
    }
}

/// The scan of ASCII text, pair by pair: what it has covered up to the pair
/// ending at `n` is what [`covered_by_scan`] says; its spans end by `n`; an
/// open comment started before `n` and stands outside quotes.
proof fn lemma_scan_coverage(s: Seq<char>, n: nat)
    requires
        is_ascii_text(s),
        n <= pair_count(s),
    ensures
        forall|k: int| 0 <= k <= n ==> #[trigger] covered_so_far(s, n, k) == covered_by_scan(s, n as int, k),
        forall|j: int|
            0 <= j < scan_upto(s, n).spans.len() ==> (#[trigger] scan_upto(s, n).spans[j]).1 <= n,
        scan_upto(s, n).comment matches Some(c) ==> comment_start(c) < n,
        scan_upto(s, n).comment is Some ==> scan_upto(s, n).quote is None,
    decreases n,
{
    lemma_ascii_offsets(s);
    if n == 0 {
        assert forall|k: int| 0 <= k <= n implies #[trigger] covered_so_far(s, n, k) == covered_by_scan(
            s,
            n as int,
            k,
        ) by {
            assert(!covered(scan_upto(s, 0).spans, k));
        }
    } else {
        let m = (n - 1) as nat;
        lemma_scan_coverage(s, m);
        let a = scan_upto(s, m);
        let b = scan_upto(s, n);
        assert(byte_offset(s, m as int) == m);
        assert(byte_offset(s, n as int) == n);
        assert(b == scan_step(a, s[m as int], s[n as int], m as int, n as int));
        assert forall|j: int| 0 <= j < b.spans.len() implies (#[trigger] b.spans[j]).1 <= n by {
            if j < a.spans.len() {
                assert(b.spans[j] == a.spans[j]);
            }
        }
        assert forall|k: int| 0 <= k <= n implies #[trigger] covered_so_far(s, n, k) == covered_by_scan(
            s,
            n as int,
            k,
        ) by {
            if b.spans.len() > a.spans.len() {
                lemma_covered_push(a.spans, b.spans.last(), k);
                assert(b.spans == a.spans.push(b.spans.last()));
            } else {
                assert(b.spans == a.spans);
            }
            if k < n {
                assert(covered_so_far(s, m, k) == covered_by_scan(s, m as int, k));
            } else {
                if !covered(a.spans, k) {
                } else {
                    let j = choose|j: int| 0 <= j < a.spans.len() && #[trigger] a.spans[j].0 <= k
                        <= a.spans[j].1;
                    assert(a.spans[j].1 <= m);
                }
            }
        }
    }
}

/// One more pair of ASCII text, as the scan takes it.
proof fn lemma_scan_unfold(s: Seq<char>, j: nat)
    requires
        is_ascii_text(s),
        1 <= j <= pair_count(s),
    ensures
        scan_upto(s, j) == scan_step(scan_upto(s, (j - 1) as nat), s[j - 1], s[j as int], j - 1, j as int),
        scan_upto(s, (j - 1) as nat).comment is None && scan_upto(s, j).comment is Some ==> s[j - 1]
            == '/' && scan_upto(s, (j - 1) as nat).quote is None,
        closes_at(s, j as int) ==> s[j as int] == '/',
{
    lemma_ascii_offsets(s);
    assert(byte_offset(s, j - 1) == j - 1);
    assert(byte_offset(s, j as int) == j);
}

/// What the comments of ASCII text cover is what its scan covers.
proof fn lemma_final_coverage(s: Seq<char>, file: Seq<char>)
    requires
        is_ascii_text(s),
        comment_spans(s, file) is Ok,
    ensures
        forall|k: int|
            0 <= k < s.len() ==> #[trigger] covered(comment_spans(s, file)->Ok_0, k)
                == covered_by_scan(s, pair_count(s) as int, k),
{
    let p = pair_count(s);
    lemma_scan_coverage(s, p);
    lemma_ascii_offsets(s);
    let st = scan_upto(s, p);
    let sp = comment_spans(s, file)->Ok_0;
    assert forall|k: int| 0 <= k < s.len() implies #[trigger] covered(sp, k) == covered_by_scan(
        s,
        p as int,
        k,
    ) by {
        assert(covered_so_far(s, p, k) == covered_by_scan(s, p as int, k));
        match st.comment {
            Some(CommentState::Line(a)) => {
                lemma_covered_push(st.spans, (a, byte_len(s)), k);
            },
            _ => {},
        }
    }
}

/// Scanning the text with its comments blanked out: no comment opens, and
/// the quotes stand as in the scan of the text itself.
proof fn lemma_blank_scan(s: Seq<char>, file: Seq<char>, n: nat)
    requires
        is_ascii_text(s),
        comment_spans(s, file) is Ok,
        n <= pair_count(s),
    ensures
        ({
            let t = blank_spans(s, comment_spans(s, file)->Ok_0);
            &&& scan_upto(t, n).comment is None
            &&& scan_upto(t, n).spans.len() == 0
            &&& scan_upto(t, n).quote == scan_upto(s, n).quote
        }),
    decreases n,
{
    let sp = comment_spans(s, file)->Ok_0;
    let t = blank_spans(s, sp);
    let p = pair_count(s);
    lemma_final_coverage(s, file);
    lemma_scan_coverage(s, p);
    if n == 0 {
        if s.len() > 0 {
            assert(covered(sp, 0) == covered_by_scan(s, p as int, 0));
            if p >= 1 && open_at(s, 1) {
                lemma_scan_unfold(s, 1);
            }
        }
    } else {
        let m = (n - 1) as nat;
        lemma_blank_scan(s, file, m);
        lemma_scan_unfold(s, n);
        lemma_scan_coverage(s, m);
        lemma_scan_coverage(s, n);
        assert(pair_count(t) == p);
        assert(scan_upto(t, n) == scan_step(
            scan_upto(t, m),
            t[m as int],
            t[n as int],
            byte_offset(t, m as int),
            byte_offset(t, n as int),
        ));
        assert(covered(sp, m as int) == covered_by_scan(s, p as int, m as int));
        assert(covered(sp, n as int) == covered_by_scan(s, p as int, n as int));
        if m >= 1 {
            lemma_scan_unfold(s, m);
        }
        if n + 1 <= p {
            lemma_scan_unfold(s, n + 1);
        }
    }
}

/// Removing the comments of ASCII text a second time changes nothing.
pub proof fn law_comment_removal_is_idempotent(s: Seq<char>, file: Seq<char>)
    requires
        is_ascii_text(s),
        without_comments(s, file) is Ok,
    ensures
        without_comments(without_comments(s, file)->Ok_0, file) == without_comments(s, file),
{
    let sp = comment_spans(s, file)->Ok_0;
    let t = blank_spans(s, sp);
    assert(pair_count(t) == pair_count(s));
    lemma_blank_scan(s, file, pair_count(s));
    assert(scan_upto(t, pair_count(t)).spans =~= Seq::<(int, int)>::empty());
    assert(comment_spans(t, file) == Ok::<Seq<(int, int)>, ErrorView>(Seq::empty()));
    assert(blank_spans(t, Seq::empty()) =~= t);
}

} // verus!
