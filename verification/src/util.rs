//! Flattening a hierarchy of messages into a linear sequence.

use crate::text::{Message, MessageStyle, MessageView};
use vstd::prelude::*;

verus! {

/// One call that a traversal makes on a flattener.
pub enum FlattenEvent {
    /// A node is entered; the style is the node's own.
    PushStyle(MessageStyle),
    /// The content of the node just entered, which may be empty.
    Content(Seq<char>),
    /// A node is left; the style is the node's own.
    PopStyle(MessageStyle),
}

impl MessageView {
    /// The calls that flattening this message makes, in order: the node is
    /// entered, its content is given, its children are flattened from left
    /// to right, and the node is left.
    pub open spec fn trace(self) -> Seq<FlattenEvent>
        decreases self,
    {
        seq![FlattenEvent::PushStyle(self.style), FlattenEvent::Content(self.content)]
            + MessageView::trace_all(self.children) + seq![FlattenEvent::PopStyle(self.style)]
    }

    /// The calls that flattening each of `messages` in turn makes.
    pub open spec fn trace_all(messages: Seq<MessageView>) -> Seq<FlattenEvent>
        decreases messages,
    {
        if messages.len() == 0 {
            Seq::empty()
        } else {
            MessageView::trace_all(messages.drop_last()) + messages.last().trace()
        }
    }
}

/// Functions called when flattening a hierarchy of [`Message`] nodes with
/// [`Message::flatten`].
///
/// An implementation may say with `step` how each call changes it; what a
/// whole traversal does to it then follows from [`walked`].
pub trait MessageFlattener: Sized {
    /// Whether a flattener that was `pre` when a call was made on it may
    /// be `post` when the call returns. Unless an implementation says
    /// otherwise, a call may change it in any way.
    open spec fn step(pre: Self, event: FlattenEvent, post: Self) -> bool {
        true
    }

    /// Called when a new style is entered.
    fn push_style(&mut self, style: MessageStyle)
        ensures
            Self::step(*old(self), FlattenEvent::PushStyle(style), *final(self)),
    ;

    /// Called when a new piece of text content is encountered.
    fn content(&mut self, content: &str)
        ensures
            Self::step(*old(self), FlattenEvent::Content(content@), *final(self)),
    ;

    /// Called when exiting a style that was previously entered.
    fn pop_style(&mut self, style: MessageStyle)
        ensures
            Self::step(*old(self), FlattenEvent::PopStyle(style), *final(self)),
    ;
}

/// Whether a flattener that starts as `pre` may end as `post` after the
/// calls `events` were made on it one after the other.
pub open spec fn walked<F: MessageFlattener>(pre: F, events: Seq<FlattenEvent>, post: F) -> bool
    decreases events.len(),
{
    if events.len() == 0 {
        post == pre
    } else {
        exists|mid: F|
            walked(pre, events.drop_last(), mid) && #[trigger] F::step(mid, events.last(), post)
    }
}

/// One more call extends a walk.
pub proof fn lemma_walked_push<F: MessageFlattener>(
    pre: F,
    events: Seq<FlattenEvent>,
    mid: F,
    event: FlattenEvent,
    post: F,
)
    requires
        walked(pre, events, mid),
        F::step(mid, event, post),
    ensures
        walked(pre, events.push(event), post),
{
    let extended = events.push(event);
    assert(extended.drop_last() == events);
    assert(extended.last() == event);
    assert(walked(pre, extended.drop_last(), mid) && F::step(mid, extended.last(), post));
}

/// Two walks, the second starting where the first ended, make one walk.
pub proof fn lemma_walked_concat<F: MessageFlattener>(
    pre: F,
    first: Seq<FlattenEvent>,
    mid: F,
    second: Seq<FlattenEvent>,
    post: F,
)
    requires
        walked(pre, first, mid),
        walked(mid, second, post),
    ensures
        walked(pre, first + second, post),
    decreases second.len(),
{
    if second.len() == 0 {
        assert(first + second == first);
    } else {
        let before = choose|before: F|
            walked(mid, second.drop_last(), before) && #[trigger] F::step(
                before,
                second.last(),
                post,
            );
        lemma_walked_concat(pre, first, mid, second.drop_last(), before);
        lemma_walked_push(pre, first + second.drop_last(), before, second.last(), post);
        assert((first + second.drop_last()).push(second.last()) == first + second);
    }
}

impl Message {
    /// Flattens this hierarchy of messages into a linear sequence of styles
    /// and strings.
    ///
    /// The tree is walked depth first, starting with `self` as the root. On
    /// each node the `flattener` is given the style of the node entered,
    /// then the content of the node, then, after all children were
    /// flattened the same way, the style of the node again.
    pub fn flatten<F: MessageFlattener>(&self, flattener: &mut F)
        ensures
            walked(*old(flattener), self@.trace(), *final(flattener)),
        decreases self,
    {
        let ghost start = *flattener;
        let ghost entered = seq![
            FlattenEvent::PushStyle(self.style),
            FlattenEvent::Content(self.content@),
        ];
        flattener.push_style(self.style);
        let ghost pushed = *flattener;
        flattener.content(self.content.as_str());
        proof {
            self.lemma_view();
            lemma_walked_push(
                start,
                Seq::empty(),
                start,
                FlattenEvent::PushStyle(self.style),
                pushed,
            );
            lemma_walked_push(
                start,
                seq![FlattenEvent::PushStyle(self.style)],
                pushed,
                FlattenEvent::Content(self.content@),
                *flattener,
            );
            assert(seq![FlattenEvent::PushStyle(self.style)].push(
                FlattenEvent::Content(self.content@),
            ) == entered);
            assert(self@.children.take(0) == Seq::<MessageView>::empty());
            assert(entered + MessageView::trace_all(Seq::empty()) == entered);
        }
        let mut i: usize = 0;
        while i < self.children.len()
            invariant
                i <= self.children.len(),
                self@.children.len() == self.children@.len(),
                forall|j: int|
                    0 <= j < self.children@.len() ==> #[trigger] self@.children[j]
                        == self.children@[j]@,
                walked(
                    start,
                    entered + MessageView::trace_all(self@.children.take(i as int)),
                    *flattener,
                ),
            decreases self.children.len() - i,
        {
            let ghost before = *flattener;
            self.children[i].flatten(flattener);
            proof {
                let done = self@.children.take(i as int);
                let next = self@.children.take(i + 1);
                assert(next.drop_last() == done);
                assert(next.last() == self.children@[i as int]@);
                assert(MessageView::trace_all(next) == MessageView::trace_all(done)
                    + next.last().trace());
                lemma_walked_concat(
                    start,
                    entered + MessageView::trace_all(done),
                    before,
                    next.last().trace(),
                    *flattener,
                );
                assert((entered + MessageView::trace_all(done)) + next.last().trace() == entered
                    + MessageView::trace_all(next));
            }
            i += 1;
        }
        let ghost descended = *flattener;
        flattener.pop_style(self.style);
        proof {
            assert(self@.children.take(i as int) == self@.children);
            lemma_walked_push(
                start,
                entered + MessageView::trace_all(self@.children),
                descended,
                FlattenEvent::PopStyle(self.style),
                *flattener,
            );
            assert(self@.trace() == (entered + MessageView::trace_all(self@.children)).push(
                FlattenEvent::PopStyle(self.style),
            ));
        }
    }
}

impl MessageView {
    /// The content of every node of this message, in the order of a
    /// flattening, each with the style it ends up with: the styles from the
    /// root down to the node merged in this order over `inherited`.
    pub open spec fn resolved(self, inherited: MessageStyle) -> Seq<(Seq<char>, MessageStyle)>
        decreases self,
    {
        let own = inherited.merged_from(self.style);
        seq![(self.content, own)] + MessageView::resolved_all(self.children, own)
    }

    /// The resolved contents of each of `messages` in turn, all below the
    /// same `inherited` style.
    pub open spec fn resolved_all(messages: Seq<MessageView>, inherited: MessageStyle) -> Seq<
        (Seq<char>, MessageStyle),
    >
        decreases messages,
    {
        if messages.len() == 0 {
            Seq::empty()
        } else {
            MessageView::resolved_all(messages.drop_last(), inherited)
                + messages.last().resolved(inherited)
        }
    }
}

/// The mathematical value of a [`StackFlattener`].
pub struct StackView {
    /// The stack of merged styles, the innermost last.
    pub stack: Seq<MessageStyle>,
    /// What was collected so far: each content with its resolved style.
    pub spans: Seq<(Seq<char>, MessageStyle)>,
}

impl StackView {
    /// The style on top of the stack, or the identity style if the stack
    /// is empty.
    pub open spec fn top(self) -> MessageStyle {
        if self.stack.len() == 0 {
            MessageStyle::identity()
        } else {
            self.stack.last()
        }
    }

    /// The state after one call: entering a style pushes it merged over the
    /// top, content is recorded with the top, leaving a style pops.
    pub open spec fn step(self, event: FlattenEvent) -> StackView {
        match event {
            FlattenEvent::PushStyle(style) => StackView {
                stack: self.stack.push(self.top().merged_from(style)),
                ..self
            },
            FlattenEvent::Content(content) => StackView {
                spans: self.spans.push((content, self.top())),
                ..self
            },
            FlattenEvent::PopStyle(_) => StackView {
                stack: if self.stack.len() == 0 {
                    self.stack
                } else {
                    self.stack.drop_last()
                },
                ..self
            },
        }
    }

    /// The state after a sequence of calls.
    pub open spec fn run(self, events: Seq<FlattenEvent>) -> StackView
        decreases events.len(),
    {
        if events.len() == 0 {
            self
        } else {
            self.run(events.drop_last()).step(events.last())
        }
    }

    /// Running one more call is a step from where the run ended.
    pub proof fn lemma_run_push(self, events: Seq<FlattenEvent>, event: FlattenEvent)
        ensures
            self.run(events.push(event)) == self.run(events).step(event),
    {
        let extended = events.push(event);
        assert(extended.drop_last() == events);
        assert(self.run(extended) == self.run(extended.drop_last()).step(extended.last()));
    }

    /// Running two sequences one after the other is running their
    /// concatenation.
    pub proof fn lemma_run_concat(self, first: Seq<FlattenEvent>, second: Seq<FlattenEvent>)
        ensures
            self.run(first + second) == self.run(first).run(second),
        decreases second.len(),
    {
        if second.len() == 0 {
            assert(first + second == first);
            assert(self.run(first).run(second) == self.run(first));
        } else {
            self.lemma_run_concat(first, second.drop_last());
            self.lemma_run_push(first + second.drop_last(), second.last());
            assert((first + second.drop_last()).push(second.last()) == first + second);
            assert(self.run(first).run(second) == self.run(first).run(second.drop_last()).step(
                second.last(),
            ));
        }
    }

    /// The calls of a whole traversal of `message` leave the stack as it
    /// was and record the resolved contents of `message` below the style
    /// that was on top.
    pub proof fn lemma_run_trace(self, message: MessageView)
        ensures
            self.run(message.trace()) == (StackView {
                stack: self.stack,
                spans: self.spans + message.resolved(self.top()),
            }),
        decreases message,
    {
        let own = self.top().merged_from(message.style);
        let head = seq![
            FlattenEvent::PushStyle(message.style),
            FlattenEvent::Content(message.content),
        ];
        let below = MessageView::trace_all(message.children);
        let entered = StackView {
            stack: self.stack.push(own),
            spans: self.spans.push((message.content, own)),
        };
        assert(self.run(head) == entered) by {
            self.lemma_run_push(Seq::empty(), FlattenEvent::PushStyle(message.style));
            self.lemma_run_push(
                seq![FlattenEvent::PushStyle(message.style)],
                FlattenEvent::Content(message.content),
            );
            assert(Seq::<FlattenEvent>::empty().push(FlattenEvent::PushStyle(message.style))
                == seq![FlattenEvent::PushStyle(message.style)]);
            assert(seq![FlattenEvent::PushStyle(message.style)].push(
                FlattenEvent::Content(message.content),
            ) == head);
            assert(self.run(Seq::empty()) == self);
        }
        entered.lemma_run_trace_all(message.children);
        self.lemma_run_concat(head, below);
        self.lemma_run_push(head + below, FlattenEvent::PopStyle(message.style));
        assert(message.trace() == (head + below).push(FlattenEvent::PopStyle(message.style)));
        assert(entered.stack.drop_last() == self.stack);
        assert(message.resolved(self.top()) == seq![(message.content, own)]
            + MessageView::resolved_all(message.children, own));
        assert(self.spans.push((message.content, own)) + MessageView::resolved_all(
            message.children,
            own,
        ) == self.spans + message.resolved(self.top()));
    }

    /// The calls of the traversals of `messages`, one after the other, leave
    /// the stack as it was and record the resolved contents of each.
    pub proof fn lemma_run_trace_all(self, messages: Seq<MessageView>)
        ensures
            self.run(MessageView::trace_all(messages)) == (StackView {
                stack: self.stack,
                spans: self.spans + MessageView::resolved_all(messages, self.top()),
            }),
        decreases messages,
    {
        if messages.len() == 0 {
            assert(MessageView::trace_all(messages) == Seq::<FlattenEvent>::empty());
            assert(self.run(Seq::empty()) == self);
            assert(MessageView::resolved_all(messages, self.top()) == Seq::<
                (Seq<char>, MessageStyle),
            >::empty());
            assert(self.spans + Seq::empty() == self.spans);
        } else {
            let done = StackView {
                stack: self.stack,
                spans: self.spans + MessageView::resolved_all(messages.drop_last(), self.top()),
            };
            self.lemma_run_trace_all(messages.drop_last());
            done.lemma_run_trace(messages.last());
            self.lemma_run_concat(
                MessageView::trace_all(messages.drop_last()),
                messages.last().trace(),
            );
            assert(MessageView::trace_all(messages) == MessageView::trace_all(
                messages.drop_last(),
            ) + messages.last().trace());
            assert(MessageView::resolved_all(messages, self.top()) == MessageView::resolved_all(
                messages.drop_last(),
                self.top(),
            ) + messages.last().resolved(self.top()));
            assert(done.spans + messages.last().resolved(self.top()) == self.spans
                + MessageView::resolved_all(messages, self.top()));
        }
    }
}

/// The mathematical value of a sequence of collected spans.
pub open spec fn span_views(spans: Seq<(String, MessageStyle)>) -> Seq<(Seq<char>, MessageStyle)> {
    spans.map_values(|span: (String, MessageStyle)| (span.0@, span.1))
}

/// A [`MessageFlattener`] which maintains a stack of merged styles and
/// collects every content together with its resolved style.
///
/// When a style is entered, it is merged over the style on top of the stack
/// (over the identity style if the stack is empty) and the result is pushed.
/// When a style is left, the top of the stack is popped. So the top of the
/// stack is always the fully resolved style of the node being processed, and
/// this is the style recorded with its content.
#[derive(Debug)]
pub struct StackFlattener {
    style_stack: Vec<MessageStyle>,
    spans: Vec<(String, MessageStyle)>,
}

impl View for StackFlattener {
    type V = StackView;

    closed spec fn view(&self) -> StackView {
        StackView { stack: self.style_stack@, spans: span_views(self.spans@) }
    }
}

impl StackFlattener {
    /// Creates a flattener with an empty style stack and nothing collected.
    pub fn new() -> (res: Self)
        ensures
            res@ == (StackView { stack: Seq::empty(), spans: Seq::empty() }),
    {
        let res = StackFlattener { style_stack: Vec::new(), spans: Vec::new() };
        assert(span_views(res.spans@) == Seq::<(Seq<char>, MessageStyle)>::empty());
        res
    }

    /// How many styles are entered and not yet left.
    pub fn depth(&self) -> (res: usize)
        ensures
            res == self@.stack.len(),
    {
        self.style_stack.len()
    }

    /// The style that content encountered now would be recorded with.
    pub fn current_style(&self) -> (res: MessageStyle)
        ensures
            res == self@.top(),
    {
        let depth = self.style_stack.len();
        if depth == 0 {
            MessageStyle::new()
        } else {
            self.style_stack[depth - 1]
        }
    }

    /// What was collected so far, in the order it was encountered.
    pub fn spans(&self) -> (res: &Vec<(String, MessageStyle)>)
        ensures
            span_views(res@) == self@.spans,
    {
        &self.spans
    }

    /// Ends the flattening and hands out what was collected.
    pub fn into_spans(self) -> (res: Vec<(String, MessageStyle)>)
        ensures
            span_views(res@) == self@.spans,
    {
        self.spans
    }
}

impl MessageFlattener for StackFlattener {
    open spec fn step(pre: Self, event: FlattenEvent, post: Self) -> bool {
        post@ == pre@.step(event)
    }

    fn push_style(&mut self, style: MessageStyle) {
        let merged = self.current_style().merged_from(style);
        self.style_stack.push(merged);
    }

    fn content(&mut self, content: &str) {
        let style = self.current_style();
        let ghost before = self.spans@;
        self.spans.push((content.to_owned(), style));
        assert(span_views(self.spans@) == span_views(before).push((content@, style)));
    }

    fn pop_style(&mut self, style: MessageStyle) {
        self.style_stack.pop();
    }
}

/// What a stack flattener holds after the calls `events`: the run of its
/// state machine from what it held before.
pub proof fn lemma_stack_walked(pre: StackFlattener, events: Seq<FlattenEvent>, post: StackFlattener)
    requires
        walked(pre, events, post),
    ensures
        post@ == pre@.run(events),
    decreases events.len(),
{
    if events.len() == 0 {
        assert(pre@.run(events) == pre@);
    } else {
        let mid = choose|mid: StackFlattener|
            walked(pre, events.drop_last(), mid) && #[trigger] StackFlattener::step(
                mid,
                events.last(),
                post,
            );
        lemma_stack_walked(pre, events.drop_last(), mid);
        assert(pre@.run(events) == pre@.run(events.drop_last()).step(events.last()));
    }
}

/// Flattening a message into a stack flattener brings the stack back to
/// what it was, and adds to what was collected the content of every node, in
/// traversal order, with the styles from the root down to that node merged
/// over the style that was on top.
pub proof fn lemma_flatten_resolves(pre: StackFlattener, message: MessageView, post: StackFlattener)
    requires
        walked(pre, message.trace(), post),
    ensures
        post@.stack == pre@.stack,
        post@.spans == pre@.spans + message.resolved(pre@.top()),
{
    lemma_stack_walked(pre, message.trace(), post);
    pre@.lemma_run_trace(message);
}

impl Message {
    /// The content of every node of this message, in traversal order, each
    /// with its fully resolved style.
    pub fn styled_spans(&self) -> (res: Vec<(String, MessageStyle)>)
        ensures
            span_views(res@) == self@.resolved(MessageStyle::identity()),
    {
        let mut flattener = StackFlattener::new();
        let ghost start = flattener;
        self.flatten(&mut flattener);
        proof {
            lemma_flatten_resolves(start, self@, flattener);
            assert(Seq::<(Seq<char>, MessageStyle)>::empty() + self@.resolved(
                MessageStyle::identity(),
            ) == self@.resolved(MessageStyle::identity()));
        }
        flattener.into_spans()
    }
}

impl MessageView {
    /// The content of every node of this message, concatenated in traversal
    /// order: the node's own content, then the text of each child, with
    /// nothing in between.
    pub open spec fn plain_text(self) -> Seq<char>
        decreases self,
    {
        self.content + MessageView::plain_text_all(self.children)
    }

    /// The text of each of `messages`, concatenated in order.
    pub open spec fn plain_text_all(messages: Seq<MessageView>) -> Seq<char>
        decreases messages,
    {
        if messages.len() == 0 {
            Seq::empty()
        } else {
            MessageView::plain_text_all(messages.drop_last()) + messages.last().plain_text()
        }
    }
}

/// The text that a call carries: the content, if it is a content call.
pub open spec fn content_of(event: FlattenEvent) -> Seq<char> {
    match event {
        FlattenEvent::Content(content) => content,
        _ => Seq::empty(),
    }
}

/// The contents among a sequence of calls, concatenated in order.
pub open spec fn contents(events: Seq<FlattenEvent>) -> Seq<char>
    decreases events.len(),
{
    if events.len() == 0 {
        Seq::empty()
    } else {
        contents(events.drop_last()) + content_of(events.last())
    }
}

/// The contents of two sequences of calls, one after the other.
pub proof fn lemma_contents_concat(first: Seq<FlattenEvent>, second: Seq<FlattenEvent>)
    ensures
        contents(first + second) == contents(first) + contents(second),
    decreases second.len(),
{
    if second.len() == 0 {
        assert(first + second == first);
        assert(contents(second) == Seq::<char>::empty());
    } else {
        lemma_contents_concat(first, second.drop_last());
        let whole = first + second;
        assert(whole.drop_last() == first + second.drop_last());
        assert(whole.last() == second.last());
        assert(contents(whole) == contents(whole.drop_last()) + content_of(whole.last()));
        assert(contents(second) == contents(second.drop_last()) + content_of(second.last()));
    }
}

/// The content calls of a traversal, concatenated, are the plain text of the
/// message: every node's content, in traversal order, none left out and
/// nothing put in between.
pub proof fn lemma_trace_contents(message: MessageView)
    ensures
        contents(message.trace()) == message.plain_text(),
    decreases message,
{
    let head = seq![
        FlattenEvent::PushStyle(message.style),
        FlattenEvent::Content(message.content),
    ];
    let below = MessageView::trace_all(message.children);
    let tail = seq![FlattenEvent::PopStyle(message.style)];
    assert(contents(head) == message.content) by {
        reveal_with_fuel(contents, 3);
    }
    assert(contents(tail) == Seq::<char>::empty()) by {
        reveal_with_fuel(contents, 2);
    }
    lemma_trace_all_contents(message.children);
    lemma_contents_concat(head, below);
    lemma_contents_concat(head + below, tail);
    assert(message.trace() == head + below + tail);
    assert(message.plain_text() == message.content + MessageView::plain_text_all(
        message.children,
    ));
}

/// The content calls of the traversals of `messages`, concatenated, are the
/// plain texts of the messages, concatenated.
pub proof fn lemma_trace_all_contents(messages: Seq<MessageView>)
    ensures
        contents(MessageView::trace_all(messages)) == MessageView::plain_text_all(messages),
    decreases messages,
{
    if messages.len() == 0 {
        assert(MessageView::trace_all(messages) == Seq::<FlattenEvent>::empty());
        assert(MessageView::plain_text_all(messages) == Seq::<char>::empty());
    } else {
        lemma_trace_all_contents(messages.drop_last());
        lemma_trace_contents(messages.last());
        lemma_contents_concat(
            MessageView::trace_all(messages.drop_last()),
            messages.last().trace(),
        );
        assert(MessageView::trace_all(messages) == MessageView::trace_all(messages.drop_last())
            + messages.last().trace());
        assert(MessageView::plain_text_all(messages) == MessageView::plain_text_all(
            messages.drop_last(),
        ) + messages.last().plain_text());
    }
}

/// A flattener that ignores styles and concatenates content.
struct TextFlattener {
    buf: String,
}

impl MessageFlattener for TextFlattener {
    closed spec fn step(pre: Self, event: FlattenEvent, post: Self) -> bool {
        post.buf@ == pre.buf@ + content_of(event)
    }

    fn push_style(&mut self, style: MessageStyle) {
    }

    fn content(&mut self, content: &str) {
        self.buf.append(content);
    }

    fn pop_style(&mut self, style: MessageStyle) {
    }
}

/// What a text flattener holds after the calls `events`: what it held
/// before, and then the contents among the calls.
proof fn lemma_text_walked(pre: TextFlattener, events: Seq<FlattenEvent>, post: TextFlattener)
    requires
        walked(pre, events, post),
    ensures
        post.buf@ == pre.buf@ + contents(events),
    decreases events.len(),
{
    if events.len() == 0 {
        assert(contents(events) == Seq::<char>::empty());
    } else {
        let mid = choose|mid: TextFlattener|
            walked(pre, events.drop_last(), mid) && #[trigger] TextFlattener::step(
                mid,
                events.last(),
                post,
            );
        lemma_text_walked(pre, events.drop_last(), mid);
        assert(contents(events) == contents(events.drop_last()) + content_of(events.last()));
    }
}

impl Message {
    /// The text of this message without any styling: the content of every
    /// node, concatenated in traversal order.
    pub fn to_string(&self) -> (res: String)
        ensures
            res@ == self@.plain_text(),
    {
        let mut flattener = TextFlattener { buf: String::new() };
        let ghost start = flattener;
        self.flatten(&mut flattener);
        proof {
            lemma_text_walked(start, self@.trace(), flattener);
            lemma_trace_contents(self@);
            assert(Seq::<char>::empty() + self@.plain_text() == self@.plain_text());
        }
        flattener.buf
    }
}

impl MessageView {
    /// The number of nodes of this message.
    pub open spec fn node_count(self) -> nat
        decreases self,
    {
        1 + MessageView::node_count_all(self.children)
    }

    /// The number of nodes of all of `messages`.
    pub open spec fn node_count_all(messages: Seq<MessageView>) -> nat
        decreases messages,
    {
        if messages.len() == 0 {
            0
        } else {
            MessageView::node_count_all(messages.drop_last()) + messages.last().node_count()
        }
    }
}

/// How many of `events` enter a style.
pub open spec fn pushes(events: Seq<FlattenEvent>) -> nat
    decreases events.len(),
{
    if events.len() == 0 {
        0
    } else {
        pushes(events.drop_last()) + if events.last() is PushStyle { 1nat } else { 0nat }
    }
}

/// How many of `events` give content.
pub open spec fn content_calls(events: Seq<FlattenEvent>) -> nat
    decreases events.len(),
{
    if events.len() == 0 {
        0
    } else {
        content_calls(events.drop_last()) + if events.last() is Content { 1nat } else { 0nat }
    }
}

/// How many of `events` leave a style.
pub open spec fn pops(events: Seq<FlattenEvent>) -> nat
    decreases events.len(),
{
    if events.len() == 0 {
        0
    } else {
        pops(events.drop_last()) + if events.last() is PopStyle { 1nat } else { 0nat }
    }
}

/// The styles entered and not yet left after `events`, the innermost last,
/// if `outer` were entered and not yet left before. `None` if one of the
/// events leaves a style when none is entered, or another style than the one
/// entered last.
pub open spec fn nesting(events: Seq<FlattenEvent>, outer: Seq<MessageStyle>) -> Option<
    Seq<MessageStyle>,
>
    decreases events.len(),
{
    if events.len() == 0 {
        Some(outer)
    } else {
        match nesting(events.drop_last(), outer) {
            None => None,
            Some(entered) => match events.last() {
                FlattenEvent::PushStyle(style) => Some(entered.push(style)),
                FlattenEvent::Content(_) => Some(entered),
                FlattenEvent::PopStyle(style) => if entered.len() > 0 && entered.last() == style {
                    Some(entered.drop_last())
                } else {
                    None
                },
            },
        }
    }
}

/// Counting and nesting go through a concatenation part by part.
pub proof fn lemma_tally_concat(
    first: Seq<FlattenEvent>,
    second: Seq<FlattenEvent>,
    outer: Seq<MessageStyle>,
)
    ensures
        pushes(first + second) == pushes(first) + pushes(second),
        content_calls(first + second) == content_calls(first) + content_calls(second),
        pops(first + second) == pops(first) + pops(second),
        nesting(first + second, outer) == match nesting(first, outer) {
            None => None,
            Some(entered) => nesting(second, entered),
        },
    decreases second.len(),
{
    if second.len() == 0 {
        assert(first + second == first);
    } else {
        lemma_tally_concat(first, second.drop_last(), outer);
        let whole = first + second;
        assert(whole.drop_last() == first + second.drop_last());
        assert(whole.last() == second.last());
        assert(pushes(whole) == pushes(whole.drop_last()) + if whole.last() is PushStyle {
            1nat
        } else {
            0nat
        });
        assert(content_calls(whole) == content_calls(whole.drop_last())
            + if whole.last() is Content {
            1nat
        } else {
            0nat
        });
        assert(pops(whole) == pops(whole.drop_last()) + if whole.last() is PopStyle {
            1nat
        } else {
            0nat
        });
        if let Some(entered) = nesting(first, outer) {
            assert(nesting(second, entered) == match nesting(second.drop_last(), entered) {
                None => None,
                Some(inner) => nesting(seq![second.last()], inner),
            }) by {
                reveal_with_fuel(nesting, 2);
                assert(seq![second.last()].drop_last() == Seq::<FlattenEvent>::empty());
            }
        }
        assert(nesting(whole, outer) == match nesting(whole.drop_last(), outer) {
            None => None,
            Some(inner) => nesting(seq![whole.last()], inner),
        }) by {
            reveal_with_fuel(nesting, 2);
            assert(seq![whole.last()].drop_last() == Seq::<FlattenEvent>::empty());
        }
    }
}

/// A traversal is balanced: it enters a style, gives content and leaves a
/// style once for every node of the message, and its calls are properly
/// nested, so that a flattener which keeps the styles entered and not yet
/// left ends with what it started with: from the empty stack, with the empty
/// stack.
pub proof fn lemma_trace_balanced(message: MessageView, outer: Seq<MessageStyle>)
    ensures
        pushes(message.trace()) == message.node_count(),
        content_calls(message.trace()) == message.node_count(),
        pops(message.trace()) == message.node_count(),
        nesting(message.trace(), outer) == Some(outer),
    decreases message,
{
    let head = seq![
        FlattenEvent::PushStyle(message.style),
        FlattenEvent::Content(message.content),
    ];
    let below = MessageView::trace_all(message.children);
    let tail = seq![FlattenEvent::PopStyle(message.style)];
    let inside = outer.push(message.style);
    assert(pushes(head) == 1 && content_calls(head) == 1 && pops(head) == 0 && nesting(head, outer)
        == Some(inside)) by {
        reveal_with_fuel(pushes, 3);
        reveal_with_fuel(content_calls, 3);
        reveal_with_fuel(pops, 3);
        reveal_with_fuel(nesting, 3);
        assert(head.drop_last() == seq![FlattenEvent::PushStyle(message.style)]);
        assert(head.drop_last().drop_last() == Seq::<FlattenEvent>::empty());
    }
    assert(pushes(tail) == 0 && content_calls(tail) == 0 && pops(tail) == 1 && nesting(
        tail,
        inside,
    ) == Some(outer)) by {
        reveal_with_fuel(pushes, 2);
        reveal_with_fuel(content_calls, 2);
        reveal_with_fuel(pops, 2);
        reveal_with_fuel(nesting, 2);
        assert(tail.drop_last() == Seq::<FlattenEvent>::empty());
        assert(inside.drop_last() == outer);
    }
    lemma_trace_all_balanced(message.children, inside);
    lemma_tally_concat(head, below, outer);
    lemma_tally_concat(head + below, tail, outer);
    assert(message.trace() == head + below + tail);
    assert(message.node_count() == 1 + MessageView::node_count_all(message.children));
}

/// The traversals of `messages`, one after the other, are balanced.
pub proof fn lemma_trace_all_balanced(messages: Seq<MessageView>, outer: Seq<MessageStyle>)
    ensures
        pushes(MessageView::trace_all(messages)) == MessageView::node_count_all(messages),
        content_calls(MessageView::trace_all(messages)) == MessageView::node_count_all(messages),
        pops(MessageView::trace_all(messages)) == MessageView::node_count_all(messages),
        nesting(MessageView::trace_all(messages), outer) == Some(outer),
    decreases messages,
{
    if messages.len() == 0 {
        assert(MessageView::trace_all(messages) == Seq::<FlattenEvent>::empty());
        assert(MessageView::node_count_all(messages) == 0);
    } else {
        lemma_trace_all_balanced(messages.drop_last(), outer);
        lemma_trace_balanced(messages.last(), outer);
        lemma_tally_concat(
            MessageView::trace_all(messages.drop_last()),
            messages.last().trace(),
            outer,
        );
        assert(MessageView::trace_all(messages) == MessageView::trace_all(messages.drop_last())
            + messages.last().trace());
        assert(MessageView::node_count_all(messages) == MessageView::node_count_all(
            messages.drop_last(),
        ) + messages.last().node_count());
    }
}

/// The styles of `chain` merged one over the other, the first lowest, over
/// the identity style.
pub open spec fn merged_chain(chain: Seq<MessageStyle>) -> MessageStyle
    decreases chain.len(),
{
    if chain.len() == 0 {
        MessageStyle::identity()
    } else {
        merged_chain(chain.drop_last()).merged_from(chain.last())
    }
}

/// The stack that a stack flattener holds inside nodes whose own styles are
/// `chain`, the outermost first: for every node the merge of the styles from
/// the outermost node down to it.
pub open spec fn resolved_chain(chain: Seq<MessageStyle>) -> Seq<MessageStyle> {
    Seq::new(chain.len(), |i: int| merged_through(chain, i))
}

/// The merge of the styles of `chain` up to and including the one at `i`.
pub open spec fn merged_through(chain: Seq<MessageStyle>, i: int) -> MessageStyle {
    merged_chain(chain.take(i + 1))
}

/// Entering one more node pushes the merge of the whole chain.
pub proof fn lemma_resolved_chain_push(chain: Seq<MessageStyle>, style: MessageStyle)
    ensures
        resolved_chain(chain.push(style)) == resolved_chain(chain).push(
            merged_chain(chain).merged_from(style),
        ),
        resolved_chain(chain.push(style)).drop_last() == resolved_chain(chain),
{
    let longer = chain.push(style);
    assert(longer.drop_last() == chain);
    assert(longer.take(chain.len() as int + 1) == longer);
    assert(merged_chain(longer) == merged_chain(longer.drop_last()).merged_from(longer.last()));
    assert forall|i: int| 0 <= i < chain.len() implies #[trigger] merged_through(longer, i)
        == merged_through(chain, i) by {
        assert(longer.take(i + 1) == chain.take(i + 1));
    }
    assert(resolved_chain(longer) == resolved_chain(chain).push(
        merged_chain(chain).merged_from(style),
    ));
}

/// As long as the calls made on a stack flattener are properly nested, its
/// stack is as deep as the traversal is, and every entry, the top above all,
/// is the merge of the own styles of the nodes around it, from the
/// outermost down.
pub proof fn lemma_stack_follows_nesting(
    state: StackView,
    events: Seq<FlattenEvent>,
    outer: Seq<MessageStyle>,
)
    requires
        state.stack == resolved_chain(outer),
        nesting(events, outer) is Some,
    ensures
        state.run(events).stack == resolved_chain(nesting(events, outer)->0),
        state.run(events).stack.len() == nesting(events, outer)->0.len(),
        state.run(events).top() == merged_chain(nesting(events, outer)->0),
    decreases events.len(),
{
    if events.len() == 0 {
        assert(state.run(events) == state);
        assert(nesting(events, outer) == Some(outer));
    } else {
        assert(nesting(events, outer) == match nesting(events.drop_last(), outer) {
            None => None,
            Some(entered) => nesting(seq![events.last()], entered),
        }) by {
            reveal_with_fuel(nesting, 2);
            assert(seq![events.last()].drop_last() == Seq::<FlattenEvent>::empty());
        }
        let entered = nesting(events.drop_last(), outer)->0;
        lemma_stack_follows_nesting(state, events.drop_last(), outer);
        let before = state.run(events.drop_last());
        assert(state.run(events) == before.step(events.last()));
        assert(nesting(events, outer) == nesting(seq![events.last()], entered));
        reveal_with_fuel(nesting, 2);
        assert(seq![events.last()].drop_last() == Seq::<FlattenEvent>::empty());
        match events.last() {
            FlattenEvent::PushStyle(style) => {
                lemma_resolved_chain_push(entered, style);
            },
            FlattenEvent::Content(_) => {},
            FlattenEvent::PopStyle(style) => {
                assert(entered.len() > 0 && entered.last() == style);
                assert(entered.drop_last().push(style) == entered);
                lemma_resolved_chain_push(entered.drop_last(), style);
            },
        }
    }
    let last = nesting(events, outer)->0;
    if last.len() > 0 {
        assert(last.take(last.len() as int) == last);
    }
}

} // verus!
