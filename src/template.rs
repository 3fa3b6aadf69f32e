use vstd::prelude::*;

verus! {

broadcast use vstd::string::axiom_spec_iter;

/// One piece of a compiled template: literal text, or the source of an
/// expression whose output fills that place.
#[derive(Debug, Clone, PartialEq, Eq)]
pub enum Segment {
    Static(String),
    Dynamic(String),
}

/// The mathematical value of a segment.
pub ghost enum SegmentModel {
    Static(Seq<char>),
    Dynamic(Seq<char>),
}

impl View for Segment {
    type V = SegmentModel;

    open spec fn view(&self) -> SegmentModel {
        match self {
            Segment::Static(t) => SegmentModel::Static(t@),
            Segment::Dynamic(e) => SegmentModel::Dynamic(e@),
        }
    }
}

/// The views of a list of segments.
pub open spec fn segments_view(v: Seq<Segment>) -> Seq<SegmentModel> {
    v.map_values(|s: Segment| s@)
}

/// `{{` starts at position `i` of `s`.
pub open spec fn opens_at(s: Seq<char>, i: int) -> bool {
    0 <= i && i + 1 < s.len() && s[i] == '{' && s[i + 1] == '{'
}

/// `}}` starts at position `i` of `s`.
pub open spec fn closes_at(s: Seq<char>, i: int) -> bool {
    0 <= i && i + 1 < s.len() && s[i] == '}' && s[i + 1] == '}'
}

/// The first position at or after `i` where `{{` starts, or the length of `s`.
pub open spec fn next_open(s: Seq<char>, i: int) -> int
    decreases s.len() - i,
{
    if i >= s.len() {
        s.len() as int
    } else if opens_at(s, i) {
        i
    } else {
        next_open(s, i + 1)
    }
}

/// The first position at or after `i` where `}}` starts, or the length of `s`.
pub open spec fn next_close(s: Seq<char>, i: int) -> int
    decreases s.len() - i,
{
    if i >= s.len() {
        s.len() as int
    } else if closes_at(s, i) {
        i
    } else {
        next_close(s, i + 1)
    }
}

pub proof fn lemma_next_open_bounds(s: Seq<char>, i: int)
    requires
        0 <= i,
    ensures
        i <= next_open(s, i) || i > s.len(),
        next_open(s, i) <= s.len(),
        next_open(s, i) < s.len() ==> opens_at(s, next_open(s, i)),
        forall|k: int| i <= k < next_open(s, i) ==> !opens_at(s, k),
    decreases s.len() - i,
{
    if i < s.len() && !opens_at(s, i) {
        lemma_next_open_bounds(s, i + 1);
    }
}

pub proof fn lemma_next_close_bounds(s: Seq<char>, i: int)
    requires
        0 <= i,
    ensures
        i <= next_close(s, i) || i > s.len(),
        next_close(s, i) <= s.len(),
        next_close(s, i) < s.len() ==> closes_at(s, next_close(s, i)),
        forall|k: int| i <= k < next_close(s, i) ==> !closes_at(s, k),
    decreases s.len() - i,
{
    if i < s.len() && !closes_at(s, i) {
        lemma_next_close_bounds(s, i + 1);
    }
}

/// Where the segment that starts at position `i` of `s` ends, delimiters
/// included. An expression without `}}` runs to the end of the input.
pub open spec fn segment_end(s: Seq<char>, i: int) -> int {
    if opens_at(s, i) {
        let c = next_close(s, i + 2);
        if c < s.len() {
            c + 2
        } else {
            s.len() as int
        }
    } else {
        next_open(s, i + 1)
    }
}

/// The segment that starts at position `i` of `s`.
pub open spec fn segment_at(s: Seq<char>, i: int) -> SegmentModel {
    if opens_at(s, i) {
        SegmentModel::Dynamic(s.subrange(i + 2, next_close(s, i + 2)))
    } else {
        SegmentModel::Static(s.subrange(i, segment_end(s, i)))
    }
}

pub proof fn lemma_segment_end_advances(s: Seq<char>, i: int)
    requires
        0 <= i < s.len(),
    ensures
        i < segment_end(s, i) <= s.len(),
{
    lemma_next_open_bounds(s, i + 1);
    lemma_next_close_bounds(s, i + 2);
}

/// The segments of `s` from position `i` on, in order.
pub open spec fn compile_from(s: Seq<char>, i: int) -> Seq<SegmentModel>
    decreases s.len() - i,
    via compile_from_decreases
{
    if i < 0 || i >= s.len() {
        Seq::empty()
    } else {
        seq![segment_at(s, i)] + compile_from(s, segment_end(s, i))
    }
}

#[via_fn]
proof fn compile_from_decreases(s: Seq<char>, i: int) {
    if 0 <= i < s.len() {
        lemma_segment_end_advances(s, i);
    }
}

/// The segments of a whole template, in order.
pub open spec fn compile_spec(s: Seq<char>) -> Seq<SegmentModel> {
    compile_from(s, 0)
}

/// Relies on String::push: the character is appended at the end.
#[verifier::external_body]
fn push_char(s: &mut String, c: char)
    ensures
        final(s)@ == old(s)@.push(c),
{
    s.push(c)
}

fn chars_of(s: &str) -> (r: Vec<char>)
    ensures
        r@ == s@,
{
    let mut r: Vec<char> = Vec::new();
    for c in it: s.chars()
        invariant
            r@ == it.seq().take(it.index() as int),
    {
        r.push(c);
    }
    r
}

fn opens_at_exec(s: &Vec<char>, i: usize) -> (r: bool)
    ensures
        r == opens_at(s@, i as int),
{
    i < s.len() && s.len() - i >= 2 && s[i] == '{' && s[i + 1] == '{'
}

fn closes_at_exec(s: &Vec<char>, i: usize) -> (r: bool)
    ensures
        r == closes_at(s@, i as int),
{
    i < s.len() && s.len() - i >= 2 && s[i] == '}' && s[i + 1] == '}'
}

/// Reads one expression: the characters from `start` up to the first `}}`,
/// or to the end of the input. Returns them and the position of the `}}`.
fn scan_expression(s: &Vec<char>, start: usize) -> (r: (String, usize))
    requires
        start <= s.len(),
    ensures
        r.1 == next_close(s@, start as int),
        r.0@ == s@.subrange(start as int, r.1 as int),
{
    let mut text = String::new();
    let mut j: usize = start;
    while j < s.len() && !closes_at_exec(s, j)
        invariant
            start <= j <= s.len(),
            next_close(s@, j as int) == next_close(s@, start as int),
            text@ == s@.subrange(start as int, j as int),
        decreases s.len() - j,
    {
        push_char(&mut text, s[j]);
        assert(s@.subrange(start as int, j + 1) =~= s@.subrange(start as int, j as int).push(s@[j as int]));
        j = j + 1;
    }
    (text, j)
}

/// Reads one literal: the characters from `start` up to the next `{{` that
/// starts after `start`, or to the end of the input. Returns them and the
/// position where they end.
fn scan_literal(s: &Vec<char>, start: usize) -> (r: (String, usize))
    requires
        start < s.len(),
    ensures
        r.1 == next_open(s@, start + 1),
        r.0@ == s@.subrange(start as int, r.1 as int),
{
    let mut text = String::new();
    push_char(&mut text, s[start]);
    assert(s@.subrange(start as int, start + 1) =~= seq![s@[start as int]]);
    let mut j: usize = start + 1;
    while j < s.len() && !opens_at_exec(s, j)
        invariant
            start < j <= s.len(),
            next_open(s@, j as int) == next_open(s@, start + 1),
            text@ == s@.subrange(start as int, j as int),
        decreases s.len() - j,
    {
        push_char(&mut text, s[j]);
        assert(s@.subrange(start as int, j + 1) =~= s@.subrange(start as int, j as int).push(s@[j as int]));
        j = j + 1;
    }
    (text, j)
}

/// Splits a template into its literal and expression segments, left to
/// right. `{{` opens an expression and `}}` closes it; an expression that is
/// never closed runs to the end.
pub fn compile(input: &str) -> (r: Vec<Segment>)
    ensures
        segments_view(r@) == compile_spec(input@),
{
    let s = chars_of(input);
    let mut out: Vec<Segment> = Vec::new();
    let mut i: usize = 0;
    while i < s.len()
        invariant
            i <= s.len(),
            segments_view(out@) + compile_from(s@, i as int) == compile_spec(s@),
        decreases s.len() - i,
    {
        proof {
            lemma_segment_end_advances(s@, i as int);
            lemma_next_close_bounds(s@, i + 2);
        }
        let ghost before = out@;
        let ghost at = i as int;
        if opens_at_exec(&s, i) {
            let (text, close) = scan_expression(&s, i + 2);
            out.push(Segment::Dynamic(text));
            if close < s.len() {
                i = close + 2;
            } else {
                i = close;
            }
        } else {
            let (text, end) = scan_literal(&s, i);
            out.push(Segment::Static(text));
            i = end;
        }
        assert(out@.last()@ == segment_at(s@, at));
        assert(i == segment_end(s@, at));
        assert(segments_view(out@) =~= segments_view(before).push(out@.last()@));
        assert(compile_from(s@, at) == seq![segment_at(s@, at)] + compile_from(
            s@,
            segment_end(s@, at),
        ));
        assert(segments_view(out@) + compile_from(s@, i as int) =~= segments_view(before)
            + compile_from(s@, at));
    }
    out
}

} // verus!
