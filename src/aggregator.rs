use vstd::prelude::*;

use crate::template::{
    compile, compile_from, compile_spec, lemma_segment_end_advances, opens_at, segment_at,
    segment_end, segments_view, Segment, SegmentModel,
};

verus! {

/// One event from a running expression: a line of its primary output, or
/// diagnostic output, which never changes the composed string.
#[derive(Debug, Clone, PartialEq, Eq)]
pub enum Output {
    Primary(String),
    Diagnostic(String),
}

/// A dynamic segment to be run: its slot and the source of its expression.
#[derive(Debug, Clone, PartialEq, Eq)]
pub struct Producer {
    pub index: usize,
    pub expression: String,
}

impl View for Producer {
    type V = (int, Seq<char>);

    open spec fn view(&self) -> (int, Seq<char>) {
        (self.index as int, self.expression@)
    }
}

/// The concatenation of `parts`, in order.
pub open spec fn join(parts: Seq<Seq<char>>) -> Seq<char>
    decreases parts.len(),
{
    if parts.len() == 0 {
        Seq::empty()
    } else {
        parts[0] + join(parts.drop_first())
    }
}

/// What a slot holds before any expression has produced output: the literal
/// text of a static segment, nothing for a dynamic one.
pub open spec fn initial_part(m: SegmentModel) -> Seq<char> {
    match m {
        SegmentModel::Static(t) => t,
        SegmentModel::Dynamic(_) => Seq::empty(),
    }
}

/// The slots of a freshly built composition buffer.
pub open spec fn initial_parts(segments: Seq<SegmentModel>) -> Seq<Seq<char>> {
    segments.map_values(|m: SegmentModel| initial_part(m))
}

/// The dynamic segments among the first `n`, with their slots, in order.
pub open spec fn dynamic_slots(segments: Seq<SegmentModel>, n: int) -> Seq<(int, Seq<char>)>
    decreases n,
{
    if n <= 0 {
        Seq::empty()
    } else {
        let before = dynamic_slots(segments, n - 1);
        match segments[n - 1] {
            SegmentModel::Dynamic(e) => before.push((n - 1, e)),
            SegmentModel::Static(_) => before,
        }
    }
}

/// All dynamic segments of a segment list, with their slots, in order.
pub open spec fn all_dynamic_slots(segments: Seq<SegmentModel>) -> Seq<(int, Seq<char>)> {
    dynamic_slots(segments, segments.len() as int)
}

/// The state of a live string: its segments, one slot per segment holding
/// the latest value seen there, and whether the consumer still wants updates.
pub ghost struct DynamicStringModel {
    pub segments: Seq<SegmentModel>,
    pub parts: Seq<Seq<char>>,
    pub active: bool,
}

impl DynamicStringModel {
    /// One slot per segment, and each static slot holds its literal text.
    pub open spec fn wf(self) -> bool {
        &&& self.parts.len() == self.segments.len()
        &&& forall|k: int|
            0 <= k < self.segments.len() && (#[trigger] self.segments[k]) is Static
                ==> self.parts[k] == self.segments[k]->Static_0
    }

    /// The string that the slots compose.
    pub open spec fn composed(self) -> Seq<char> {
        join(self.parts)
    }

    /// Slot `index` is a dynamic segment's.
    pub open spec fn is_dynamic_slot(self, index: int) -> bool {
        0 <= index < self.segments.len() && self.segments[index] is Dynamic
    }

    /// The state after writing `value` into slot `index`.
    pub open spec fn written(self, index: int, value: Seq<char>) -> DynamicStringModel {
        DynamicStringModel { parts: self.parts.update(index, value), ..self }
    }
}

/// The state after writing each `(slot, value)` of `writes`, in order.
pub open spec fn apply_writes(m: DynamicStringModel, writes: Seq<(int, Seq<char>)>) -> DynamicStringModel
    decreases writes.len(),
{
    if writes.len() == 0 {
        m
    } else {
        let w = writes.last();
        apply_writes(m, writes.drop_last()).written(w.0, w.1)
    }
}

/// The last value that `writes` puts in slot `k`, or `default` if none does.
pub open spec fn last_write(writes: Seq<(int, Seq<char>)>, k: int, default: Seq<char>) -> Seq<char>
    decreases writes.len(),
{
    if writes.len() == 0 {
        default
    } else if writes.last().0 == k {
        writes.last().1
    } else {
        last_write(writes.drop_last(), k, default)
    }
}

/// What each slot holds once `writes` have all arrived on a fresh buffer:
/// static text where the segment is static, else the last value written
/// there, or nothing.
pub open spec fn settled_parts(segments: Seq<SegmentModel>, writes: Seq<(int, Seq<char>)>) -> Seq<Seq<char>> {
    Seq::new(
        segments.len(),
        |k: int|
            match segments[k] {
                SegmentModel::Static(t) => t,
                SegmentModel::Dynamic(_) => last_write(writes, k, Seq::empty()),
            },
    )
}

proof fn lemma_apply_writes_slots(m: DynamicStringModel, writes: Seq<(int, Seq<char>)>)
    requires
        m.wf(),
        forall|j: int| 0 <= j < writes.len() ==> m.is_dynamic_slot(#[trigger] writes[j].0),
    ensures
        apply_writes(m, writes).wf(),
        apply_writes(m, writes).segments == m.segments,
        apply_writes(m, writes).active == m.active,
        forall|k: int|
            0 <= k < m.parts.len() ==> #[trigger] apply_writes(m, writes).parts[k] == last_write(
                writes,
                k,
                m.parts[k],
            ),
    decreases writes.len(),
{
    if writes.len() > 0 {
        let rest = writes.drop_last();
        assert forall|j: int| 0 <= j < rest.len() implies m.is_dynamic_slot(
            #[trigger] rest[j].0,
        ) by {
            assert(rest[j] == writes[j]);
        }
        lemma_apply_writes_slots(m, rest);
        assert(m.is_dynamic_slot(writes[writes.len() - 1].0));
    }
}

/// Whatever the order in which producers' outputs arrive, once they have all
/// arrived the composed string is the template's static text with, at each
/// dynamic segment's place, the last value written to that slot (or nothing).
pub proof fn lemma_settled_string(m: DynamicStringModel, writes: Seq<(int, Seq<char>)>)
    requires
        m.wf(),
        m.parts == initial_parts(m.segments),
        forall|j: int| 0 <= j < writes.len() ==> m.is_dynamic_slot(#[trigger] writes[j].0),
    ensures
        apply_writes(m, writes).wf(),
        apply_writes(m, writes).parts == settled_parts(m.segments, writes),
        apply_writes(m, writes).composed() == join(settled_parts(m.segments, writes)),
{
    lemma_apply_writes_slots(m, writes);
    let a = apply_writes(m, writes);
    let e = settled_parts(m.segments, writes);
    assert forall|k: int| 0 <= k < e.len() implies a.parts[k] == e[k] by {
        match m.segments[k] {
            SegmentModel::Static(t) => {},
            SegmentModel::Dynamic(_) => {
                assert(m.parts[k] == initial_part(m.segments[k]));
            },
        }
    }
    assert(a.parts =~= e);
}

/// Writing into a slot the value it already holds leaves the state, and so
/// the composed string, unchanged; `update` still publishes it.
pub proof fn lemma_rewrite_same_value(m: DynamicStringModel, index: int, value: Seq<char>)
    requires
        m.wf(),
        m.is_dynamic_slot(index),
        m.parts[index] == value,
    ensures
        m.written(index, value) == m,
        m.written(index, value).composed() == m.composed(),
{
    assert(m.parts.update(index, value) =~= m.parts);
}

proof fn lemma_static_suffix(s: Seq<char>, i: int)
    requires
        0 <= i <= s.len(),
        forall|k: int|
            0 <= k < compile_from(s, i).len() ==> (#[trigger] compile_from(s, i)[k]) is Static,
    ensures
        join(initial_parts(compile_from(s, i))) == s.subrange(i, s.len() as int),
        all_dynamic_slots(compile_from(s, i)).len() == 0,
    decreases s.len() - i,
{
    let segs = compile_from(s, i);
    if i < s.len() {
        lemma_segment_end_advances(s, i);
        let end = segment_end(s, i);
        let rest = compile_from(s, end);
        assert(segs == seq![segment_at(s, i)] + rest);
        assert(segs[0] is Static);
        assert(!opens_at(s, i));
        assert forall|k: int| 0 <= k < rest.len() implies (#[trigger] rest[k]) is Static by {
            assert(rest[k] == segs[k + 1]);
        }
        lemma_static_suffix(s, end);
        assert(initial_parts(segs).drop_first() =~= initial_parts(rest));
        assert(s.subrange(i, s.len() as int) =~= s.subrange(i, end) + s.subrange(end, s.len() as int));
        lemma_no_dynamic_slots(segs, segs.len() as int);
    } else {
        assert(initial_parts(segs) =~= Seq::<Seq<char>>::empty());
    }
}

proof fn lemma_no_dynamic_slots(segs: Seq<SegmentModel>, n: int)
    requires
        n <= segs.len(),
        forall|k: int| 0 <= k < segs.len() ==> (#[trigger] segs[k]) is Static,
    ensures
        dynamic_slots(segs, n).len() == 0,
    decreases n,
{
    if n > 0 {
        lemma_no_dynamic_slots(segs, n - 1);
    }
}

/// A template without expressions composes to itself, and has no producer:
/// its initial string is the only one ever published.
pub proof fn lemma_static_template_verbatim(s: Seq<char>)
    requires
        forall|k: int|
            0 <= k < compile_spec(s).len() ==> (#[trigger] compile_spec(s)[k]) is Static,
    ensures
        join(initial_parts(compile_spec(s))) == s,
        all_dynamic_slots(compile_spec(s)).len() == 0,
{
    assert forall|k: int| 0 <= k < compile_from(s, 0).len() implies (#[trigger] compile_from(
        s,
        0,
    )[k]) is Static by {
        assert(compile_spec(s)[k] is Static);
    }
    lemma_static_suffix(s, 0);
    assert(s.subrange(0, s.len() as int) =~= s);
}

/// A string with embedded expressions whose output keeps it up to date.
///
/// It holds the composition buffer: one slot per segment, in template order.
/// Writing a slot and composing the whole string are a single step.
pub struct DynamicString {
    segments: Vec<Segment>,
    parts: Vec<String>,
    active: bool,
}

impl View for DynamicString {
    type V = DynamicStringModel;

    closed spec fn view(&self) -> DynamicStringModel {
        DynamicStringModel {
            segments: segments_view(self.segments@),
            parts: self.parts@.map_values(|p: String| p@),
            active: self.active,
        }
    }
}

pub proof fn lemma_join_push(parts: Seq<Seq<char>>, x: Seq<char>)
    ensures
        join(parts.push(x)) == join(parts) + x,
    decreases parts.len(),
{
    if parts.len() == 0 {
        assert(parts.push(x).drop_first() =~= Seq::<Seq<char>>::empty());
        assert(join(parts.push(x)) =~= x + join(Seq::<Seq<char>>::empty()));
    } else {
        assert(parts.push(x).drop_first() =~= parts.drop_first().push(x));
        lemma_join_push(parts.drop_first(), x);
        assert(join(parts.push(x)) =~= parts[0] + (join(parts.drop_first()) + x));
    }
}

/// Relies on String::push_str: the text is appended at the end.
#[verifier::external_body]
fn push_text(s: &mut String, t: &str)
    ensures
        final(s)@ == old(s)@ + t@,
{
    s.push_str(t)
}

/// Concatenates `parts` in order.
fn join_parts(parts: &Vec<String>) -> (r: String)
    ensures
        r@ == join(parts@.map_values(|p: String| p@)),
{
    let ghost v = parts@.map_values(|p: String| p@);
    let mut r = String::new();
    let mut k: usize = 0;
    while k < parts.len()
        invariant
            k <= parts.len(),
            v == parts@.map_values(|p: String| p@),
            r@ == join(v.take(k as int)),
        decreases parts.len() - k,
    {
        proof {
            lemma_join_push(v.take(k as int), v[k as int]);
            assert(v.take(k + 1) =~= v.take(k as int).push(v[k as int]));
        }
        push_text(&mut r, parts[k].as_str());
        k = k + 1;
    }
    assert(v.take(k as int) =~= v);
    r
}

impl DynamicString {
    /// Compiles `input` and builds its composition buffer: static slots hold
    /// their text, dynamic slots start empty.
    pub fn new(input: &str) -> (r: DynamicString)
        ensures
            r@.wf(),
            r@.segments == compile_spec(input@),
            r@.parts == initial_parts(r@.segments),
            r@.active,
    {
        DynamicString::from_segments(compile(input))
    }

    /// Builds the composition buffer of an already compiled segment list.
    pub fn from_segments(segments: Vec<Segment>) -> (r: DynamicString)
        ensures
            r@.wf(),
            r@.segments == segments_view(segments@),
            r@.parts == initial_parts(r@.segments),
            r@.active,
    {
        let ghost segs = segments_view(segments@);
        let mut parts: Vec<String> = Vec::new();
        let mut k: usize = 0;
        while k < segments.len()
            invariant
                k <= segments.len(),
                segs == segments_view(segments@),
                parts@.map_values(|p: String| p@) == initial_parts(segs).take(k as int),
            decreases segments.len() - k,
        {
            let part = match &segments[k] {
                Segment::Static(t) => t.clone(),
                Segment::Dynamic(_) => String::new(),
            };
            assert(part@ == initial_part(segs[k as int]));
            let ghost before = parts@;
            parts.push(part);
            assert(parts@.map_values(|p: String| p@) =~= before.map_values(|p: String| p@).push(
                part@,
            ));
            assert(initial_parts(segs).take(k + 1) =~= initial_parts(segs).take(k as int).push(
                initial_part(segs[k as int]),
            ));
            k = k + 1;
        }
        assert(initial_parts(segs).take(k as int) =~= initial_parts(segs));
        DynamicString { segments, parts, active: true }
    }

    /// The string that the slots compose now.
    pub fn current(&self) -> (r: String)
        ensures
            r@ == self@.composed(),
    {
        join_parts(&self.parts)
    }

    /// Whether the consumer still takes updates.
    pub fn is_active(&self) -> (r: bool)
        ensures
            r == self@.active,
    {
        self.active
    }

    /// The dynamic segments, each with its slot, in template order: one
    /// producer is to run for each.
    pub fn producers(&self) -> (r: Vec<Producer>)
        ensures
            r@.map_values(|p: Producer| p@) == all_dynamic_slots(self@.segments),
    {
        let ghost segs = self@.segments;
        let mut out: Vec<Producer> = Vec::new();
        let mut k: usize = 0;
        while k < self.segments.len()
            invariant
                k <= self.segments.len(),
                segs == self@.segments,
                segs == segments_view(self.segments@),
                out@.map_values(|p: Producer| p@) == dynamic_slots(segs, k as int),
            decreases self.segments.len() - k,
        {
            let ghost before = out@;
            match &self.segments[k] {
                Segment::Dynamic(e) => {
                    out.push(Producer { index: k, expression: e.clone() });
                    assert(out@.map_values(|p: Producer| p@) =~= before.map_values(
                        |p: Producer| p@,
                    ).push((k as int, e@)));
                },
                Segment::Static(_) => {},
            }
            k = k + 1;
        }
        out
    }

    /// Takes one event from the producer of slot `index`. Primary output
    /// overwrites the slot and returns the newly composed string, to be
    /// published, even where the slot already held that value. Diagnostic
    /// output, a slot that is not dynamic, or a consumer that asked to stop
    /// leave everything as it was and return `None`.
    pub fn update(&mut self, index: usize, event: Output) -> (r: Option<String>)
        requires
            old(self)@.wf(),
        ensures
            final(self)@.wf(),
            ({
                let o = old(self)@;
                if o.active && o.is_dynamic_slot(index as int) && event is Primary {
                    &&& final(self)@ == o.written(index as int, event->Primary_0@)
                    &&& r is Some
                    &&& r->0@ == final(self)@.composed()
                } else {
                    &&& final(self)@ == o
                    &&& r is None
                }
            }),
    {
        if !self.active || index >= self.segments.len() {
            return None;
        }
        let dynamic = match &self.segments[index] {
            Segment::Dynamic(_) => true,
            Segment::Static(_) => false,
        };
        if !dynamic {
            return None;
        }
        match event {
            Output::Primary(value) => {
                let ghost o = self@;
                let ghost v = value@;
                self.parts.set(index, value);
                assert(self@.parts =~= o.parts.update(index as int, v));
                Some(join_parts(&self.parts))
            },
            Output::Diagnostic(_) => None,
        }
    }

    /// Records the consumer's answer to a published string: `false` stops
    /// all later publishing.
    pub fn acknowledge(&mut self, keep: bool)
        ensures
            final(self)@ == (DynamicStringModel { active: old(self)@.active && keep, ..old(self)@ }),
    {
        self.active = self.active && keep;
    }
}

} // verus!
