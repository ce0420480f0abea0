//! What a streaming turn shows of the parsed output, and when.

use vstd::prelude::*;
use vstd::string::*;

use crate::text::str_eq;
use crate::text::trim_chars;
use crate::text::trimmed;

verus! {

/// A piece of parsed output.
#[derive(Debug)]
pub enum StreamSegment {
    Text(String),
    Reasoning(String),
    ToolCall,
}

/// What a piece of parsed output holds.
#[verifier::ext_equal]
pub ghost enum SegmentView {
    Text(Seq<char>),
    Reasoning(Seq<char>),
    ToolCall,
}

impl StreamSegment {
    /// What the piece holds.
    pub open spec fn content(self) -> SegmentView {
        match self {
            StreamSegment::Text(t) => SegmentView::Text(t@),
            StreamSegment::Reasoning(t) => SegmentView::Reasoning(t@),
            StreamSegment::ToolCall => SegmentView::ToolCall,
        }
    }
}

/// What pieces of parsed output hold.
pub open spec fn segment_views(s: Seq<StreamSegment>) -> Seq<SegmentView> {
    Seq::new(s.len(), |i: int| s[i].content())
}

/// Text that is shown.
#[derive(Debug)]
pub struct StreamDelta {
    pub text: String,
    pub is_reasoning: bool,
}

/// What is shown.
#[verifier::ext_equal]
pub ghost struct DeltaView {
    pub text: Seq<char>,
    pub is_reasoning: bool,
}

/// What is shown by a list of deltas.
pub open spec fn delta_views(d: Seq<StreamDelta>) -> Seq<DeltaView> {
    Seq::new(d.len(), |i: int| DeltaView { text: d[i].text@, is_reasoning: d[i].is_reasoning })
}

/// What the dispatch holds back and has seen.
#[verifier::ext_equal]
pub ghost struct DispatchView {
    pub pending: Seq<char>,
    pub visible: bool,
    pub tool: bool,
}

/// Decides what is shown of a turn.
///
/// The model marks both hidden reasoning and some plain answers as a channel.
/// What was shown as reasoning cannot become text later, so leading channel
/// text is held back until text or a tool call shows that it was reasoning; a
/// turn that ends before shows it as text.
#[derive(Debug)]
pub struct Gemma4StreamDispatchState {
    pub pending_reasoning: String,
    pub visible_text_emitted: bool,
    pub tool_call_seen: bool,
}

/// A delta for a text; none for an empty one.
pub open spec fn shown(text: Seq<char>, is_reasoning: bool) -> Seq<DeltaView> {
    if text.len() == 0 {
        Seq::empty()
    } else {
        seq![DeltaView { text, is_reasoning }]
    }
}

impl DispatchView {
    /// The state after a piece.
    pub open spec fn after(self, s: SegmentView) -> DispatchView {
        match s {
            SegmentView::Text(t) => if t.len() == 0 {
                self
            } else {
                DispatchView { pending: Seq::empty(), visible: true, tool: self.tool }
            },
            SegmentView::Reasoning(t) => if self.visible || self.tool {
                self
            } else {
                DispatchView { pending: self.pending + t, ..self }
            },
            SegmentView::ToolCall => DispatchView {
                pending: Seq::empty(),
                visible: self.visible,
                tool: true,
            },
        }
    }

    /// What a piece makes visible.
    pub open spec fn emits(self, s: SegmentView) -> Seq<DeltaView> {
        match s {
            SegmentView::Text(t) => if t.len() == 0 {
                Seq::empty()
            } else {
                shown(self.pending, true) + shown(t, false)
            },
            SegmentView::Reasoning(t) => if self.visible || self.tool {
                shown(t, true)
            } else {
                Seq::empty()
            },
            SegmentView::ToolCall => shown(self.pending, true),
        }
    }

    /// The state after some pieces.
    pub open spec fn after_all(self, s: Seq<SegmentView>) -> DispatchView
        decreases s.len(),
    {
        if s.len() == 0 {
            self
        } else {
            self.after_all(s.drop_last()).after(s.last())
        }
    }

    /// What some pieces make visible.
    pub open spec fn emits_all(self, s: Seq<SegmentView>) -> Seq<DeltaView>
        decreases s.len(),
    {
        if s.len() == 0 {
            Seq::empty()
        } else {
            self.emits_all(s.drop_last()) + self.after_all(s.drop_last()).emits(s.last())
        }
    }

    /// What the end of a turn makes visible.
    pub open spec fn emits_at_end(self) -> Seq<DeltaView> {
        shown(self.pending, self.visible || self.tool)
    }

    /// The state after the end of a turn.
    pub open spec fn after_end(self) -> DispatchView {
        DispatchView {
            pending: Seq::empty(),
            visible: self.visible || (self.pending.len() > 0 && !self.tool),
            tool: self.tool,
        }
    }
}

fn push_delta(out: &mut Vec<StreamDelta>, text: String, is_reasoning: bool)
    ensures
        delta_views(final(out)@) == delta_views(old(out)@) + shown(text@, is_reasoning),
{
    let ghost before = out@;
    if !text.as_str().is_empty() {
        out.push(StreamDelta { text, is_reasoning });
    }
    assert(delta_views(out@) =~= delta_views(before) + shown(text@, is_reasoning));
}

impl Default for Gemma4StreamDispatchState {
    fn default() -> (r: Gemma4StreamDispatchState)
        ensures
            r.view() == (DispatchView { pending: Seq::empty(), visible: false, tool: false }),
    {
        Gemma4StreamDispatchState {
            pending_reasoning: String::new(),
            visible_text_emitted: false,
            tool_call_seen: false,
        }
    }
}

impl Gemma4StreamDispatchState {
    /// What the dispatch holds back and has seen.
    pub open spec fn view(self) -> DispatchView {
        DispatchView {
            pending: self.pending_reasoning@,
            visible: self.visible_text_emitted,
            tool: self.tool_call_seen,
        }
    }

    fn flush_pending_reasoning(&mut self, out: &mut Vec<StreamDelta>)
        ensures
            final(self).view() == (DispatchView { pending: Seq::empty(), ..old(self).view() }),
            delta_views(final(out)@) == delta_views(old(out)@) + shown(
                old(self).view().pending,
                true,
            ),
    {
        let text = self.pending_reasoning.clone();
        self.pending_reasoning = String::new();
        push_delta(out, text, true);
    }

    /// Takes pieces of parsed output; appends what becomes visible.
    pub fn dispatch_segments(&mut self, segments: &Vec<StreamSegment>, out: &mut Vec<StreamDelta>)
        ensures
            final(self).view() == old(self).view().after_all(segment_views(segments@)),
            delta_views(final(out)@) == delta_views(old(out)@) + old(self).view().emits_all(
                segment_views(segments@),
            ),
    {
        let ghost start = self.view();
        let ghost shown_before = delta_views(out@);
        let ghost all = segment_views(segments@);
        let mut i: usize = 0;
        proof {
            assert(all.take(0) =~= Seq::<SegmentView>::empty());
            assert(shown_before + start.emits_all(all.take(0)) =~= shown_before);
        }
        while i < segments.len()
            invariant
                i <= segments@.len(),
                all == segment_views(segments@),
                self.view() == start.after_all(all.take(i as int)),
                delta_views(out@) == shown_before + start.emits_all(all.take(i as int)),
            decreases segments@.len() - i,
        {
            let ghost here = self.view();
            let ghost upto = all.take(i + 1);
            let ghost out_before = delta_views(out@);
            proof {
                assert(upto.drop_last() =~= all.take(i as int));
                assert(upto.last() == segments@[i as int].content());
            }
            match &segments[i] {
                StreamSegment::Text(text) => {
                    if !text.as_str().is_empty() {
                        self.flush_pending_reasoning(out);
                        self.visible_text_emitted = true;
                        push_delta(out, text.clone(), false);
                    }
                },
                StreamSegment::Reasoning(text) => {
                    if self.visible_text_emitted || self.tool_call_seen {
                        push_delta(out, text.clone(), true);
                    } else {
                        self.pending_reasoning.append(text.as_str());
                    }
                },
                StreamSegment::ToolCall => {
                    self.tool_call_seen = true;
                    self.flush_pending_reasoning(out);
                },
            }
            proof {
                assert(self.view() =~= here.after(upto.last()));
                assert(delta_views(out@) =~= out_before + here.emits(upto.last()));
                assert(delta_views(out@) =~= shown_before + start.emits_all(upto));
            }
            i += 1;
        }
        assert(all.take(all.len() as int) =~= all);
    }

    /// Ends the turn: what is still held back becomes visible, as text where
    /// nothing else was.
    pub fn finish(&mut self, out: &mut Vec<StreamDelta>)
        ensures
            final(self).view() == old(self).view().after_end(),
            delta_views(final(out)@) == delta_views(old(out)@) + old(self).view().emits_at_end(),
    {
        if self.pending_reasoning.as_str().is_empty() {
            assert(self.view() =~= old(self).view().after_end());
            assert(delta_views(out@) =~= delta_views(out@) + old(self).view().emits_at_end());
            return;
        }
        let text = self.pending_reasoning.clone();
        self.pending_reasoning = String::new();
        if self.visible_text_emitted || self.tool_call_seen {
            push_delta(out, text, true);
        } else {
            self.visible_text_emitted = true;
            push_delta(out, text, false);
        }
    }
}

/// The text of all deltas in a row.
pub open spec fn delta_text(d: Seq<DeltaView>) -> Seq<char>
    decreases d.len(),
{
    if d.len() == 0 {
        Seq::empty()
    } else {
        delta_text(d.drop_last()) + d.last().text
    }
}

/// The text of all pieces in a row.
pub open spec fn segment_text(s: Seq<SegmentView>) -> Seq<char>
    decreases s.len(),
{
    if s.len() == 0 {
        Seq::empty()
    } else {
        segment_text(s.drop_last()) + match s.last() {
            SegmentView::Text(t) => t,
            SegmentView::Reasoning(t) => t,
            SegmentView::ToolCall => Seq::empty(),
        }
    }
}

proof fn lemma_delta_text_concat(a: Seq<DeltaView>, b: Seq<DeltaView>)
    ensures
        delta_text(a + b) == delta_text(a) + delta_text(b),
    decreases b.len(),
{
    if b.len() == 0 {
        assert(a + b =~= a);
        assert(delta_text(a) + delta_text(b) =~= delta_text(a));
    } else {
        assert((a + b).drop_last() =~= a + b.drop_last());
        lemma_delta_text_concat(a, b.drop_last());
        assert(delta_text(a + b) =~= delta_text(a) + delta_text(b));
    }
}

proof fn lemma_shown_text(text: Seq<char>, is_reasoning: bool)
    ensures
        delta_text(shown(text, is_reasoning)) == text,
{
    let d = shown(text, is_reasoning);
    if text.len() == 0 {
        assert(text =~= Seq::<char>::empty());
    } else {
        assert(d.drop_last() =~= Seq::<DeltaView>::empty());
        assert(delta_text(d.drop_last()) =~= Seq::<char>::empty());
        assert(d.last().text == text);
        assert(delta_text(d) =~= text);
    }
}

/// Whatever waits is text that came before anything was shown.
pub open spec fn waits_alone(d: DispatchView) -> bool {
    d.pending.len() > 0 ==> !d.visible && !d.tool
}

proof fn lemma_nothing_lost(d: DispatchView, s: Seq<SegmentView>)
    requires
        waits_alone(d),
    ensures
        waits_alone(d.after_all(s)),
        delta_text(d.emits_all(s)) + d.after_all(s).pending == d.pending + segment_text(s),
    decreases s.len(),
{
    if s.len() == 0 {
        assert(delta_text(d.emits_all(s)) + d.after_all(s).pending =~= d.pending + segment_text(s));
    } else {
        let front = s.drop_last();
        lemma_nothing_lost(d, front);
        let mid = d.after_all(front);
        let last = s.last();
        let done = d.emits_all(front);
        let more = mid.emits(last);
        lemma_delta_text_concat(done, more);
        match last {
            SegmentView::Text(t) => {
                lemma_shown_text(mid.pending, true);
                lemma_shown_text(t, false);
                lemma_delta_text_concat(shown(mid.pending, true), shown(t, false));
                if t.len() == 0 {
                    assert(t =~= Seq::<char>::empty());
                }
            },
            SegmentView::Reasoning(t) => {
                lemma_shown_text(t, true);
                if mid.visible || mid.tool {
                    assert(mid.pending =~= Seq::<char>::empty());
                }
            },
            SegmentView::ToolCall => {
                lemma_shown_text(mid.pending, true);
            },
        }
        let text = match last {
            SegmentView::Text(t) => t,
            SegmentView::Reasoning(t) => t,
            SegmentView::ToolCall => Seq::empty(),
        };
        let rest = mid.after(last).pending;
        assert(delta_text(more) + rest =~= mid.pending + text);
        assert((delta_text(done) + delta_text(more)) + rest =~= delta_text(done) + (delta_text(more)
            + rest));
        assert(delta_text(done) + (mid.pending + text) =~= (delta_text(done) + mid.pending) + text);
        assert((d.pending + segment_text(front)) + text =~= d.pending + (segment_text(front)
            + text));
    }
}

/// A whole turn shows all of its text, in order and each part once, and holds
/// nothing back at its end.
pub proof fn law_turn_shows_all_text(s: Seq<SegmentView>)
    ensures
        ({
            let start = DispatchView { pending: Seq::empty(), visible: false, tool: false };
            let end = start.after_all(s);
            &&& delta_text(start.emits_all(s) + end.emits_at_end()) == segment_text(s)
            &&& end.after_end().pending == Seq::<char>::empty()
        }),
{
    let start = DispatchView { pending: Seq::empty(), visible: false, tool: false };
    let end = start.after_all(s);
    lemma_nothing_lost(start, s);
    lemma_delta_text_concat(start.emits_all(s), end.emits_at_end());
    lemma_shown_text(end.pending, end.visible || end.tool);
    assert(start.pending + segment_text(s) =~= segment_text(s));
}

/// A piece that makes hidden reasoning certain.
pub open spec fn reveals(s: SegmentView) -> bool {
    match s {
        SegmentView::Text(t) => t.len() > 0,
        SegmentView::Reasoning(_) => false,
        SegmentView::ToolCall => true,
    }
}

/// A turn is of channel text alone: no piece of it is text or a tool call.
pub open spec fn only_channel(s: Seq<SegmentView>) -> bool {
    forall|i: int| 0 <= i < s.len() ==> !reveals(#[trigger] s[i])
}

/// A turn of channel text alone shows it as text: nothing before its end, then
/// all of it, not as reasoning.
pub proof fn law_channel_only_turn_is_text(s: Seq<SegmentView>)
    requires
        only_channel(s),
    ensures
        ({
            let start = DispatchView { pending: Seq::empty(), visible: false, tool: false };
            &&& start.emits_all(s) == Seq::<DeltaView>::empty()
            &&& start.after_all(s).emits_at_end() == shown(segment_text(s), false)
        }),
    decreases s.len(),
{
    let start = DispatchView { pending: Seq::empty(), visible: false, tool: false };
    lemma_channel_only(s);
    lemma_nothing_lost(start, s);
    assert(start.pending + segment_text(s) =~= segment_text(s));
    assert(delta_text(start.emits_all(s)) + start.after_all(s).pending =~= start.after_all(
        s,
    ).pending);
}

proof fn lemma_channel_only(s: Seq<SegmentView>)
    requires
        only_channel(s),
    ensures
        ({
            let start = DispatchView { pending: Seq::empty(), visible: false, tool: false };
            let end = start.after_all(s);
            &&& !end.visible
            &&& !end.tool
            &&& start.emits_all(s) == Seq::<DeltaView>::empty()
        }),
    decreases s.len(),
{
    if s.len() > 0 {
        let front = s.drop_last();
        assert forall|i: int| 0 <= i < front.len() implies !reveals(#[trigger] front[i]) by {
            assert(front[i] == s[i]);
        }
        lemma_channel_only(front);
        assert(!reveals(s[s.len() - 1]));
        let start = DispatchView { pending: Seq::empty(), visible: false, tool: false };
        assert(start.emits_all(s) =~= Seq::<DeltaView>::empty());
    }
}

/// Dispatching pieces in two calls shows what dispatching all of them in one does,
/// and leaves the same state.
pub proof fn law_two_calls_are_one(d: DispatchView, a: Seq<SegmentView>, b: Seq<SegmentView>)
    ensures
        d.after_all(a + b) == d.after_all(a).after_all(b),
        d.emits_all(a + b) == d.emits_all(a) + d.after_all(a).emits_all(b),
    decreases b.len(),
{
    if b.len() == 0 {
        assert(a + b =~= a);
        assert(d.emits_all(a) + d.after_all(a).emits_all(b) =~= d.emits_all(a));
    } else {
        let less = b.drop_last();
        assert((a + b).drop_last() =~= a + less);
        assert((a + b).last() == b.last());
        law_two_calls_are_one(d, a, less);
        let last = d.after_all(a).after_all(less).emits(b.last());
        assert((d.emits_all(a) + d.after_all(a).emits_all(less)) + last =~= d.emits_all(a) + (
        d.after_all(a).emits_all(less) + last));
    }
}

/// The pieces of several calls in a row.
pub open spec fn joined_calls(calls: Seq<Seq<SegmentView>>) -> Seq<SegmentView>
    decreases calls.len(),
{
    if calls.len() == 0 {
        Seq::empty()
    } else {
        joined_calls(calls.drop_last()) + calls.last()
    }
}

impl DispatchView {
    /// The state after several calls.
    pub open spec fn after_calls(self, calls: Seq<Seq<SegmentView>>) -> DispatchView
        decreases calls.len(),
    {
        if calls.len() == 0 {
            self
        } else {
            self.after_calls(calls.drop_last()).after_all(calls.last())
        }
    }

    /// What several calls make visible, one call after the other.
    pub open spec fn emits_calls(self, calls: Seq<Seq<SegmentView>>) -> Seq<DeltaView>
        decreases calls.len(),
    {
        if calls.len() == 0 {
            Seq::empty()
        } else {
            self.emits_calls(calls.drop_last()) + self.after_calls(calls.drop_last()).emits_all(
                calls.last(),
            )
        }
    }
}

/// However the pieces of a turn are spread over calls, the calls together show
/// what one call with all pieces shows, and leave the same state.
pub proof fn law_calls_join(d: DispatchView, calls: Seq<Seq<SegmentView>>)
    ensures
        d.after_calls(calls) == d.after_all(joined_calls(calls)),
        d.emits_calls(calls) == d.emits_all(joined_calls(calls)),
    decreases calls.len(),
{
    if calls.len() > 0 {
        law_calls_join(d, calls.drop_last());
        law_two_calls_are_one(d, joined_calls(calls.drop_last()), calls.last());
    }
}

/// Every character of a text with its class: reasoning or text.
pub open spec fn classed(text: Seq<char>, is_reasoning: bool) -> Seq<(char, bool)> {
    Seq::new(text.len(), |i: int| (text[i], is_reasoning))
}

/// Every character that deltas show, with the class it is shown in.
pub open spec fn delta_classes(d: Seq<DeltaView>) -> Seq<(char, bool)>
    decreases d.len(),
{
    if d.len() == 0 {
        Seq::empty()
    } else {
        delta_classes(d.drop_last()) + classed(d.last().text, d.last().is_reasoning)
    }
}

/// Every character of a piece with the class that the parser gave it.
pub open spec fn piece_classes(s: SegmentView) -> Seq<(char, bool)> {
    match s {
        SegmentView::Text(t) => classed(t, false),
        SegmentView::Reasoning(t) => classed(t, true),
        SegmentView::ToolCall => Seq::empty(),
    }
}

/// Every character of some pieces with the class that the parser gave it.
pub open spec fn segment_classes(s: Seq<SegmentView>) -> Seq<(char, bool)>
    decreases s.len(),
{
    if s.len() == 0 {
        Seq::empty()
    } else {
        segment_classes(s.drop_last()) + piece_classes(s.last())
    }
}

/// Every delta shows something.
pub open spec fn none_empty(d: Seq<DeltaView>) -> bool {
    forall|i: int| 0 <= i < d.len() ==> (#[trigger] d[i]).text.len() > 0
}

proof fn lemma_delta_classes_concat(a: Seq<DeltaView>, b: Seq<DeltaView>)
    ensures
        delta_classes(a + b) == delta_classes(a) + delta_classes(b),
    decreases b.len(),
{
    if b.len() == 0 {
        assert(a + b =~= a);
        assert(delta_classes(a) + delta_classes(b) =~= delta_classes(a));
    } else {
        assert((a + b).drop_last() =~= a + b.drop_last());
        lemma_delta_classes_concat(a, b.drop_last());
        assert(delta_classes(a + b) =~= delta_classes(a) + delta_classes(b));
    }
}

proof fn lemma_shown_classes(text: Seq<char>, is_reasoning: bool)
    ensures
        delta_classes(shown(text, is_reasoning)) == classed(text, is_reasoning),
        none_empty(shown(text, is_reasoning)),
{
    let d = shown(text, is_reasoning);
    if text.len() == 0 {
        assert(classed(text, is_reasoning) =~= Seq::<(char, bool)>::empty());
    } else {
        assert(d.drop_last() =~= Seq::<DeltaView>::empty());
        assert(delta_classes(d.drop_last()) =~= Seq::<(char, bool)>::empty());
        assert(delta_classes(d) =~= classed(text, is_reasoning));
    }
}

/// One piece: what is shown has the class of its origin, and so will what waits
/// as soon as it is shown as reasoning.
proof fn lemma_piece_keeps_class(d: DispatchView, s: SegmentView)
    requires
        waits_alone(d),
    ensures
        waits_alone(d.after(s)),
        none_empty(d.emits(s)),
        delta_classes(d.emits(s)) + classed(d.after(s).pending, true) == classed(d.pending, true)
            + piece_classes(s),
        reveals(s) ==> d.after(s).visible || d.after(s).tool,
        d.visible || d.tool ==> d.after(s).visible || d.after(s).tool,
{
    lemma_shown_classes(d.pending, true);
    let left = delta_classes(d.emits(s)) + classed(d.after(s).pending, true);
    let right = classed(d.pending, true) + piece_classes(s);
    match s {
        SegmentView::Text(t) => {
            lemma_shown_classes(t, false);
            lemma_delta_classes_concat(shown(d.pending, true), shown(t, false));
            assert(left =~= right);
        },
        SegmentView::Reasoning(t) => {
            lemma_shown_classes(t, true);
            assert(left =~= right);
        },
        SegmentView::ToolCall => {
            assert(left =~= right);
        },
    }
}

proof fn lemma_pieces_keep_class(d: DispatchView, s: Seq<SegmentView>)
    requires
        waits_alone(d),
    ensures
        waits_alone(d.after_all(s)),
        none_empty(d.emits_all(s)),
        delta_classes(d.emits_all(s)) + classed(d.after_all(s).pending, true) == classed(
            d.pending,
            true,
        ) + segment_classes(s),
        d.visible || d.tool || !only_channel(s) ==> d.after_all(s).visible || d.after_all(s).tool,
    decreases s.len(),
{
    if s.len() == 0 {
        assert(delta_classes(d.emits_all(s)) + classed(d.after_all(s).pending, true) =~= classed(
            d.pending,
            true,
        ) + segment_classes(s));
    } else {
        let front = s.drop_last();
        let last = s.last();
        let mid = d.after_all(front);
        lemma_pieces_keep_class(d, front);
        lemma_piece_keeps_class(mid, last);
        let done = d.emits_all(front);
        let more = mid.emits(last);
        lemma_delta_classes_concat(done, more);
        assert((delta_classes(done) + delta_classes(more)) + classed(mid.after(last).pending, true)
            =~= delta_classes(done) + (delta_classes(more) + classed(
            mid.after(last).pending,
            true,
        )));
        assert(delta_classes(done) + (classed(mid.pending, true) + piece_classes(last)) =~= (
        delta_classes(done) + classed(mid.pending, true)) + piece_classes(last));
        assert((classed(d.pending, true) + segment_classes(front)) + piece_classes(last) =~= classed(
            d.pending,
            true,
        ) + (segment_classes(front) + piece_classes(last)));
        assert forall|i: int| 0 <= i < (done + more).len() implies (#[trigger] (done
            + more)[i]).text.len() > 0 by {
            if i < done.len() {
                assert((done + more)[i] == done[i]);
            } else {
                assert((done + more)[i] == more[i - done.len()]);
            }
        }
        if !only_channel(s) && only_channel(front) {
            let i = choose|i: int| 0 <= i < s.len() && reveals(#[trigger] s[i]);
            if i < front.len() {
                assert(front[i] == s[i]);
            }
            assert(reveals(last));
        }
    }
}

/// All that a turn shows whose pieces come in several calls, its end included.
pub open spec fn turn_deltas(calls: Seq<Seq<SegmentView>>) -> Seq<DeltaView> {
    let start = DispatchView { pending: Seq::empty(), visible: false, tool: false };
    start.emits_calls(calls) + start.after_calls(calls).emits_at_end()
}

/// A whole streamed turn, however its pieces are spread over calls: every delta
/// shows something; together they show the text of all pieces in order, each
/// character once; text is shown as text and channel text as reasoning, but for
/// a turn of channel text alone, which is shown in one delta, as text, and only
/// at the end. Nothing waits any more.
pub proof fn law_streamed_turn(calls: Seq<Seq<SegmentView>>)
    ensures
        none_empty(turn_deltas(calls)),
        delta_text(turn_deltas(calls)) == segment_text(joined_calls(calls)),
        !only_channel(joined_calls(calls)) ==> delta_classes(turn_deltas(calls))
            == segment_classes(joined_calls(calls)),
        only_channel(joined_calls(calls)) ==> turn_deltas(calls) == shown(
            segment_text(joined_calls(calls)),
            false,
        ) && (DispatchView { pending: Seq::empty(), visible: false, tool: false }).emits_calls(
            calls,
        ) == Seq::<DeltaView>::empty(),
        (DispatchView { pending: Seq::empty(), visible: false, tool: false }).after_calls(
            calls,
        ).after_end().pending == Seq::<char>::empty(),
{
    let start = DispatchView { pending: Seq::empty(), visible: false, tool: false };
    let s = joined_calls(calls);
    let end = start.after_all(s);
    law_calls_join(start, calls);
    law_turn_shows_all_text(s);
    lemma_pieces_keep_class(start, s);
    let done = start.emits_all(s);
    let more = end.emits_at_end();
    lemma_shown_classes(end.pending, end.visible || end.tool);
    assert forall|i: int| 0 <= i < (done + more).len() implies (#[trigger] (done
        + more)[i]).text.len() > 0 by {
        if i < done.len() {
            assert((done + more)[i] == done[i]);
        } else {
            assert((done + more)[i] == more[i - done.len()]);
        }
    }
    if only_channel(s) {
        law_channel_only_turn_is_text(s);
        assert(done + more =~= more);
    } else {
        assert(end.pending =~= Seq::<char>::empty());
        assert(done + more =~= done);
        assert(delta_classes(done) + classed(end.pending, true) =~= delta_classes(done));
        assert(classed(start.pending, true) + segment_classes(s) =~= segment_classes(s));
    }
}

/// A tool call of a finished turn.
#[derive(Debug, Clone)]
pub struct ToolCallResult {
    pub name: String,
    /// `"ok"` where the call could be read.
    pub status: String,
}

/// The parsed output of a finished turn.
#[derive(Debug)]
pub struct Gemma4ParsedOutput {
    pub text: String,
    pub thinking: Option<String>,
    pub tool_calls: Vec<ToolCallResult>,
}

/// A turn that consists of channel text alone.
pub open spec fn channel_only(p: Gemma4ParsedOutput) -> bool {
    &&& trimmed(p.text@).len() == 0
    &&& p.tool_calls@.len() == 0
    &&& p.thinking matches Some(t) && trimmed(t@).len() > 0
}

/// Makes the channel text of a turn its text, where there is nothing else.
pub fn promote_channel_only_output(parsed: &mut Gemma4ParsedOutput)
    ensures
        !channel_only(*old(parsed)) ==> *final(parsed) == *old(parsed),
        channel_only(*old(parsed)) ==> final(parsed).text@ == old(parsed).thinking->0@ && final(parsed).thinking is None && final(parsed).tool_calls == old(parsed).tool_calls,
{
    if parsed.tool_calls.len() > 0 || trim_chars(parsed.text.as_str()).len() > 0 {
        return;
    }
    let promoted: Option<String> = match &parsed.thinking {
        Some(thinking) => if trim_chars(thinking.as_str()).len() > 0 {
            Some(thinking.clone())
        } else {
            None
        },
        None => None,
    };
    match promoted {
        Some(text) => {
            parsed.text = text;
            parsed.thinking = None;
        },
        None => {},
    }
}

/// Some call could be read.
pub open spec fn any_call_ok(calls: Seq<ToolCallResult>) -> bool {
    exists|i: int| 0 <= i < calls.len() && (#[trigger] calls[i]).status@ == "ok"@
}

/// Why a turn ended, as it is reported: tool calls go before the reason of the
/// decode loop.
pub fn reported_finish_reason(tool_calls: &Vec<ToolCallResult>, finish_reason: &str) -> (r: String)
    ensures
        r@ == if any_call_ok(tool_calls@) {
            "tool_calls"@
        } else {
            finish_reason@
        },
{
    let mut i: usize = 0;
    while i < tool_calls.len()
        invariant
            i <= tool_calls@.len(),
            forall|k: int| 0 <= k < i ==> (#[trigger] tool_calls@[k]).status@ != "ok"@,
        decreases tool_calls@.len() - i,
    {
        if str_eq(tool_calls[i].status.as_str(), "ok") {
            assert(tool_calls@[i as int].status@ == "ok"@);
            return String::from_str("tool_calls");
        }
        i += 1;
    }
    String::from_str(finish_reason)
}

/// What a finished turn answers.
#[derive(Debug, Clone)]
pub struct ChatResult {
    pub text: String,
    pub tool_calls: Vec<ToolCallResult>,
    pub thinking: Option<String>,
    pub num_tokens: u32,
    pub prompt_tokens: u32,
    pub reasoning_tokens: u32,
    pub finish_reason: String,
    pub raw_text: String,
    pub cached_tokens: u32,
}

/// What a caller receives of a streamed turn: deltas, then one chunk that ends it.
#[derive(Debug)]
pub struct ChatStreamChunk {
    pub text: String,
    pub done: bool,
    pub finish_reason: Option<String>,
    pub tool_calls: Option<Vec<ToolCallResult>>,
    pub thinking: Option<String>,
    pub num_tokens: Option<u32>,
    pub prompt_tokens: Option<u32>,
    pub reasoning_tokens: Option<u32>,
    pub raw_text: Option<String>,
    pub cached_tokens: Option<u32>,
    pub is_reasoning: Option<bool>,
}

/// The chunk of a delta: it does not end the turn, and holds nothing but the text
/// and its class.
pub fn delta_chunk(delta: StreamDelta) -> (r: ChatStreamChunk)
    ensures
        r == (ChatStreamChunk {
            text: delta.text,
            done: false,
            finish_reason: None,
            tool_calls: None,
            thinking: None,
            num_tokens: None,
            prompt_tokens: None,
            reasoning_tokens: None,
            raw_text: None,
            cached_tokens: None,
            is_reasoning: Some(delta.is_reasoning),
        }),
{
    ChatStreamChunk {
        text: delta.text,
        done: false,
        finish_reason: None,
        tool_calls: None,
        thinking: None,
        num_tokens: None,
        prompt_tokens: None,
        reasoning_tokens: None,
        raw_text: None,
        cached_tokens: None,
        is_reasoning: Some(delta.is_reasoning),
    }
}

/// The chunk that ends a turn. Its text was streamed before, so it has none; tool
/// calls and channel text are those of the stream parser, the rest that of the
/// answer.
pub fn closing_chunk(
    result: ChatResult,
    tool_calls: Vec<ToolCallResult>,
    thinking: Option<String>,
) -> (r: ChatStreamChunk)
    ensures
        r.text@ == Seq::<char>::empty(),
        r.done,
        r.finish_reason == Some(result.finish_reason),
        r.tool_calls == Some(tool_calls),
        r.thinking == thinking,
        r.num_tokens == Some(result.num_tokens),
        r.prompt_tokens == Some(result.prompt_tokens),
        r.reasoning_tokens == Some(result.reasoning_tokens),
        r.raw_text == Some(result.raw_text),
        r.cached_tokens == Some(result.cached_tokens),
        r.is_reasoning is None,
{
    ChatStreamChunk {
        text: String::new(),
        done: true,
        finish_reason: Some(result.finish_reason),
        tool_calls: Some(tool_calls),
        thinking,
        num_tokens: Some(result.num_tokens),
        prompt_tokens: Some(result.prompt_tokens),
        reasoning_tokens: Some(result.reasoning_tokens),
        raw_text: Some(result.raw_text),
        cached_tokens: Some(result.cached_tokens),
        is_reasoning: None,
    }
}

/// Counts of a finished turn.
#[derive(Debug, Clone, Copy, PartialEq, Eq, Structural)]
pub struct TurnCounts {
    pub num_tokens: u32,
    pub prompt_tokens: u32,
    pub reasoning_tokens: u32,
}

/// The answer of a finished turn from its parsed output.
pub fn finalize_turn(
    parsed: Gemma4ParsedOutput,
    raw_text: String,
    finish_reason: &str,
    counts: TurnCounts,
) -> (r: ChatResult)
    ensures
        r.text@ == if channel_only(parsed) {
            parsed.thinking->0@
        } else {
            parsed.text@
        },
        r.thinking == if channel_only(parsed) {
            None
        } else {
            parsed.thinking
        },
        r.tool_calls == parsed.tool_calls,
        r.finish_reason@ == if any_call_ok(parsed.tool_calls@) {
            "tool_calls"@
        } else {
            finish_reason@
        },
        r.raw_text == raw_text,
        r.num_tokens == counts.num_tokens,
        r.prompt_tokens == counts.prompt_tokens,
        r.reasoning_tokens == counts.reasoning_tokens,
        r.cached_tokens == 0,
{
    let mut parsed = parsed;
    promote_channel_only_output(&mut parsed);
    let reason = reported_finish_reason(&parsed.tool_calls, finish_reason);
    ChatResult {
        text: parsed.text,
        tool_calls: parsed.tool_calls,
        thinking: parsed.thinking,
        num_tokens: counts.num_tokens,
        prompt_tokens: counts.prompt_tokens,
        reasoning_tokens: counts.reasoning_tokens,
        finish_reason: reason,
        raw_text,
        cached_tokens: 0,
    }
}

/// A finished turn is of channel text alone where it has text in the channel, nothing but
/// white space outside it and no tool call.
pub proof fn law_turns_of_channel_text_alone(p: Gemma4ParsedOutput)
    ensures
        p.tool_calls@.len() > 0 ==> !channel_only(p),
        p.thinking is None ==> !channel_only(p),
        trimmed(p.text@).len() > 0 ==> !channel_only(p),
        p.tool_calls@.len() == 0 && p.thinking is Some && trimmed(p.thinking->0@).len() > 0
            && trimmed(p.text@).len() == 0 ==> channel_only(p),
        p.thinking is Some && trimmed(p.thinking->0@).len() == 0 ==> !channel_only(p),
{
}

/// A turn with one call that could be read is a turn of tool calls, whatever the others.
pub proof fn law_one_readable_call_counts(calls: Seq<ToolCallResult>, i: int)
    ensures
        0 <= i < calls.len() && calls[i].status@ == "ok"@ ==> any_call_ok(calls),
        (forall|k: int| 0 <= k < calls.len() ==> (#[trigger] calls[k]).status@ != "ok"@)
            ==> !any_call_ok(calls),
{
}

} // verus!
