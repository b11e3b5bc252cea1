//! The `Range` request header: its data model and its parser.
use vstd::prelude::*;

use crate::decimal::{parse_token, token_value};

verus! {

/// One endpoint of a requested byte span.
#[derive(Clone, Copy, Debug, PartialEq, Eq, Structural)]
pub enum Position {
    /// No lower bound was given: the span starts at offset 0.
    Start,
    /// No upper bound was given: the span runs to the end of the file.
    End,
    /// An explicit byte offset.
    Fixed(i64),
}

/// One requested span: `from` and `to` are inclusive endpoints in `unit`.
#[derive(Clone, Debug)]
pub struct RangeBounding {
    pub unit: String,
    pub from: Position,
    pub to: Position,
}

/// The spans a header asked for: a single one, or several in the order given.
#[derive(Clone, Debug)]
pub enum Range {
    One(RangeBounding),
    Multiple(Vec<RangeBounding>),
}

/// The mathematical value of a [`RangeBounding`].
pub ghost struct SpanView {
    pub unit: Seq<char>,
    pub from: Position,
    pub to: Position,
}

/// The mathematical value of a [`Range`].
pub ghost enum RangeView {
    One(SpanView),
    Multiple(Seq<SpanView>),
}

impl View for RangeBounding {
    type V = SpanView;

    open spec fn view(&self) -> SpanView {
        SpanView { unit: self.unit@, from: self.from, to: self.to }
    }
}

pub open spec fn spans_view(v: Seq<RangeBounding>) -> Seq<SpanView> {
    v.map_values(|b: RangeBounding| b@)
}

impl View for Range {
    type V = RangeView;

    open spec fn view(&self) -> RangeView {
        match self {
            Range::One(b) => RangeView::One(b@),
            Range::Multiple(v) => RangeView::Multiple(spans_view(v@)),
        }
    }
}

/// An endpoint is valid when an explicit offset is non-negative.
pub open spec fn position_valid(p: Position) -> bool {
    match p {
        Position::Fixed(v) => v >= 0,
        _ => true,
    }
}

impl SpanView {
    pub open spec fn valid(self) -> bool {
        position_valid(self.from) && position_valid(self.to)
    }
}

impl RangeView {
    /// The spans, in order.
    pub open spec fn spans(self) -> Seq<SpanView> {
        match self {
            RangeView::One(s) => seq![s],
            RangeView::Multiple(v) => v,
        }
    }

    pub open spec fn valid(self) -> bool {
        forall|i: int| 0 <= i < self.spans().len() ==> (#[trigger] self.spans()[i]).valid()
    }
}

/// The index of the first `c` in `s` at or after `i`, or `s.len()` if none.
pub open spec fn find_from(s: Seq<char>, c: char, i: int) -> int
    decreases s.len() - i,
{
    if i < 0 || i >= s.len() {
        s.len() as int
    } else if s[i] == c {
        i
    } else {
        find_from(s, c, i + 1)
    }
}

/// The index of the first `c` in `s`, or `s.len()` if there is none.
pub open spec fn find(s: Seq<char>, c: char) -> int {
    find_from(s, c, 0)
}

/// What lies before the first `c` in `s` (all of `s` if there is no `c`).
pub open spec fn before_first(s: Seq<char>, c: char) -> Seq<char> {
    s.subrange(0, find(s, c))
}

/// What lies after the first `c` in `s` (nothing if there is no `c`).
pub open spec fn after_first(s: Seq<char>, c: char) -> Seq<char> {
    if find(s, c) < s.len() {
        s.subrange(find(s, c) + 1, s.len() as int)
    } else {
        Seq::empty()
    }
}

/// The pieces of `s` between the separators `c`; always at least one piece.
pub open spec fn split_on(s: Seq<char>, c: char) -> Seq<Seq<char>>
    decreases s.len(),
{
    if s.len() == 0 {
        seq![Seq::empty()]
    } else {
        let pieces = split_on(s.drop_last(), c);
        if s.last() == c {
            pieces.push(Seq::empty())
        } else {
            pieces.update(pieces.len() - 1, pieces.last().push(s.last()))
        }
    }
}

/// The lower endpoint that a token gives: its value, or `Start` if it is no
/// non-negative integer.
pub open spec fn lower_position(t: Seq<char>) -> Position {
    match token_value(t) {
        Some(v) => Position::Fixed(v as i64),
        None => Position::Start,
    }
}

/// The upper endpoint that a token gives: its value, or `End` if it is no
/// non-negative integer.
pub open spec fn upper_position(t: Seq<char>) -> Position {
    match token_value(t) {
        Some(v) => Position::Fixed(v as i64),
        None => Position::End,
    }
}

/// The span of one specifier `<left>-<right>`, split at its first `-`.
pub open spec fn span_of(unit: Seq<char>, spec: Seq<char>) -> SpanView {
    SpanView {
        unit,
        from: lower_position(before_first(spec, '-')),
        to: upper_position(after_first(spec, '-')),
    }
}

/// The unit a header names: the text before its first `=`, or `bytes` when it
/// has no `=`.
pub open spec fn header_unit(raw: Seq<char>) -> Seq<char> {
    if find(raw, '=') < raw.len() {
        before_first(raw, '=')
    } else {
        "bytes"@
    }
}

/// The specifiers of a header: the comma-separated pieces after its first `=`.
pub open spec fn header_specifiers(raw: Seq<char>) -> Seq<Seq<char>> {
    split_on(after_first(raw, '='), ',')
}

/// The spans a header asks for, in order.
pub open spec fn header_spans(raw: Seq<char>) -> Seq<SpanView> {
    header_specifiers(raw).map_values(|p: Seq<char>| span_of(header_unit(raw), p))
}

/// The parsed value of a header: `One` for a single span, else `Multiple`.
pub open spec fn parsed_header(raw: Seq<char>) -> RangeView {
    if header_spans(raw).len() == 1 {
        RangeView::One(header_spans(raw)[0])
    } else {
        RangeView::Multiple(header_spans(raw))
    }
}

/// Parsing depends on the header text alone: two parses of equal text give
/// structurally equal values. (A parse takes its text by value and returns a
/// fresh value, so it has no other effect.)
pub proof fn lemma_parse_deterministic(raw1: Seq<char>, raw2: Seq<char>, r1: Range, r2: Range)
    requires
        raw1 == raw2,
        r1@ == parsed_header(raw1),
        r2@ == parsed_header(raw2),
    ensures
        r1@ == r2@,
{
}

/// The first `c` at or after `i` is at `k` when none lies in between and `k`
/// holds one (or is the end).
pub proof fn lemma_find_from_at(s: Seq<char>, c: char, i: int, k: int)
    requires
        0 <= i <= k <= s.len(),
        forall|j: int| i <= j < k ==> s[j] != c,
        k == s.len() || s[k] == c,
    ensures
        find_from(s, c, i) == k,
    decreases k - i,
{
    if i < k {
        lemma_find_from_at(s, c, i + 1, k);
    }
}

/// A sequence without a separator is a single piece.
pub proof fn lemma_split_without_separator(s: Seq<char>, c: char)
    requires
        forall|j: int| 0 <= j < s.len() ==> s[j] != c,
    ensures
        split_on(s, c) == seq![s],
    decreases s.len(),
{
    if s.len() > 0 {
        lemma_split_without_separator(s.drop_last(), c);
        assert(s.drop_last().push(s.last()) =~= s);
        assert(split_on(s, c) =~= seq![s]);
    } else {
        assert(s =~= Seq::<char>::empty());
    }
}

/// Appending the span of one more piece keeps the spans in step with the
/// pieces read so far.
proof fn lemma_push_span(
    out: Seq<RangeBounding>,
    b: RangeBounding,
    done: Seq<Seq<char>>,
    piece: Seq<char>,
    u: Seq<char>,
)
    requires
        spans_view(out) == done.map_values(|p: Seq<char>| span_of(u, p)),
        b@ == span_of(u, piece),
    ensures
        spans_view(out.push(b)) == done.push(piece).map_values(|p: Seq<char>| span_of(u, p)),
{
    let next = done.push(piece);
    assert(spans_view(out).len() == out.len());
    assert forall|j: int| 0 <= j < out.len() + 1 implies #[trigger] spans_view(out.push(b))[j]
        == next.map_values(|p: Seq<char>| span_of(u, p))[j] by {
        if j < out.len() {
            assert(out.push(b)[j] == out[j]);
            assert(spans_view(out)[j] == out[j]@);
            assert(done.map_values(|p: Seq<char>| span_of(u, p))[j] == span_of(u, done[j]));
            assert(next[j] == done[j]);
        }
    }
    assert(spans_view(out.push(b)) =~= next.map_values(|p: Seq<char>| span_of(u, p)));
}

proof fn lemma_token_position_valid(t: Seq<char>)
    ensures
        position_valid(lower_position(t)),
        position_valid(upper_position(t)),
{
    let d = crate::decimal::unsigned_part(t);
    if token_value(t) is Some {
        crate::decimal::lemma_digits_value_nonneg(d);
    }
}

proof fn lemma_span_of_valid(unit: Seq<char>, spec: Seq<char>)
    ensures
        span_of(unit, spec).valid(),
{
    lemma_token_position_valid(before_first(spec, '-'));
    lemma_token_position_valid(after_first(spec, '-'));
}

/// The characters of `s`, in order.
fn chars_of(s: &str) -> (r: Vec<char>)
    ensures
        r@ == s@,
{
    let n = s.unicode_len();
    let mut r: Vec<char> = Vec::new();
    let mut i: usize = 0;
    while i < n
        invariant
            n == s@.len(),
            i <= n,
            r@ == s@.subrange(0, i as int),
        decreases n - i,
    {
        r.push(s.get_char(i));
        i = i + 1;
        assert(r@ =~= s@.subrange(0, i as int));
    }
    assert(s@.subrange(0, n as int) =~= s@);
    r
}

/// The index of the first `c` in `s` at or after `from`, or `s.len()`.
fn find_char(s: &Vec<char>, c: char, from: usize) -> (r: usize)
    requires
        from <= s@.len(),
    ensures
        r as int == find_from(s@, c, from as int),
        from <= r <= s@.len(),
{
    let mut i: usize = from;
    while i < s.len()
        invariant
            from <= i <= s@.len(),
            find_from(s@, c, from as int) == find_from(s@, c, i as int),
        decreases s@.len() - i,
    {
        if s[i] == c {
            return i;
        }
        i = i + 1;
    }
    i
}

/// A copy of `s[a..b]`.
fn slice_chars(s: &Vec<char>, a: usize, b: usize) -> (r: Vec<char>)
    requires
        a <= b <= s@.len(),
    ensures
        r@ == s@.subrange(a as int, b as int),
{
    let mut r: Vec<char> = Vec::new();
    let mut i: usize = a;
    while i < b
        invariant
            a <= i <= b <= s@.len(),
            r@ == s@.subrange(a as int, i as int),
        decreases b - i,
    {
        r.push(s[i]);
        i = i + 1;
        assert(r@ =~= s@.subrange(a as int, i as int));
    }
    r
}

/// The span of one specifier, given as characters.
fn span_from_chars(spec: &Vec<char>, unit: &String) -> (r: RangeBounding)
    ensures
        r@ == span_of(unit@, spec@),
{
    let k = find_char(spec, '-', 0);
    let left = slice_chars(spec, 0, k);
    let right = if k < spec.len() {
        slice_chars(spec, k + 1, spec.len())
    } else {
        Vec::new()
    };
    assert(right@ =~= after_first(spec@, '-'));
    let from = match parse_token(left.as_slice()) {
        Some(v) => Position::Fixed(v),
        None => Position::Start,
    };
    let to = match parse_token(right.as_slice()) {
        Some(v) => Position::Fixed(v),
        None => Position::End,
    };
    RangeBounding { unit: unit.clone(), from, to }
}

/// Parses one specifier `<left>-<right>` of a header whose unit is `unit`.
///
/// The specifier is split at its first `-`. A side that is a non-negative
/// integer becomes `Fixed`; any other left side becomes `Start` and any other
/// right side `End`.
pub fn parse_single_range(range: String, unit: String) -> (r: RangeBounding)
    ensures
        r@ == span_of(unit@, range@),
{
    let chars = chars_of(range.as_str());
    span_from_chars(&chars, &unit)
}

/// Parses a `Range` header value such as `bytes=0-5,10-15`.
///
/// The unit is the text before the first `=` (`bytes` when there is none);
/// what follows it is a comma-separated list of specifiers, each read as
/// [`parse_single_range`] does. One specifier gives `Range::One`, several give
/// `Range::Multiple` in the order written. Parsing never fails, and every
/// explicit offset it produces is non-negative.
pub fn parse_range_header(raw_range: String) -> (r: Range)
    ensures
        r@ == parsed_header(raw_range@),
        r@.valid(),
{
    let raw = chars_of(raw_range.as_str());
    let k = find_char(&raw, '=', 0);
    let unit = if k < raw.len() {
        raw_range.as_str().substring_char(0, k).to_owned()
    } else {
        proof {
            reveal_strlit("bytes");
        }
        "bytes".to_owned()
    };
    assert(unit@ == header_unit(raw_range@));
    let rest = if k < raw.len() {
        slice_chars(&raw, k + 1, raw.len())
    } else {
        Vec::new()
    };
    assert(rest@ =~= after_first(raw_range@, '='));
    let ghost u = unit@;
    let ghost done: Seq<Seq<char>> = Seq::empty();
    let mut out: Vec<RangeBounding> = Vec::new();
    let mut start: usize = 0;
    let mut i: usize = 0;
    assert(rest@.subrange(0, 0) =~= Seq::<char>::empty());
    assert(rest@.subrange(0, 0) =~= rest@.subrange(start as int, 0));
    while i < rest.len()
        invariant
            start <= i <= rest@.len(),
            u == unit@,
            split_on(rest@.subrange(0, i as int), ',') == done.push(
                rest@.subrange(start as int, i as int),
            ),
            spans_view(out@) == done.map_values(|p: Seq<char>| span_of(u, p)),
        decreases rest@.len() - i,
    {
        let ghost pre = rest@.subrange(0, i as int);
        let ghost next = rest@.subrange(0, i + 1);
        assert(next.drop_last() =~= pre);
        if rest[i] == ',' {
            let piece = slice_chars(&rest, start, i);
            let b = span_from_chars(&piece, &unit);
            let ghost old_out = out@;
            out.push(b);
            proof {
                lemma_push_span(old_out, b, done, piece@, u);
                done = done.push(rest@.subrange(start as int, i as int));
            }
            start = i + 1;
            assert(rest@.subrange(start as int, i + 1) =~= Seq::<char>::empty());
        } else {
            assert(rest@.subrange(start as int, i + 1) =~= rest@.subrange(
                start as int,
                i as int,
            ).push(rest@[i as int]));
        }
        i = i + 1;
    }
    let piece = slice_chars(&rest, start, i);
    let b = span_from_chars(&piece, &unit);
    let ghost old_out = out@;
    out.push(b);
    proof {
        assert(rest@.subrange(0, i as int) =~= rest@);
        lemma_push_span(old_out, b, done, piece@, u);
        done = done.push(rest@.subrange(start as int, i as int));
        assert(spans_view(out@) =~= header_spans(raw_range@));
        assert forall|j: int| 0 <= j < header_spans(raw_range@).len() implies (
        #[trigger] header_spans(raw_range@)[j]).valid() by {
            lemma_span_of_valid(u, header_specifiers(raw_range@)[j]);
        }
    }
    if out.len() == 1 {
        let b = out.pop().unwrap();
        Range::One(b)
    } else {
        Range::Multiple(out)
    }
}

} // verus!
