//! The core objects of the library: styles and messages.

use ecolor::Color32;
use vstd::prelude::*;

verus! {

/// What a style says about one decoration.
#[derive(Clone, Copy, Debug, PartialEq, Eq, Hash, Structural)]
pub enum StyleState {
    /// No opinion: the decoration is whatever the enclosing style says.
    Inherit,
    /// The decoration is switched on.
    On,
    /// The decoration is switched off, even if an enclosing style has it on.
    Off,
}

impl Default for StyleState {
    fn default() -> (res: Self)
        ensures
            res == StyleState::Inherit,
    {
        StyleState::Inherit
    }
}

impl StyleState {
    /// This state if it holds an opinion, else `base`.
    pub open spec fn spec_or(self, base: StyleState) -> StyleState {
        if self is Inherit {
            base
        } else {
            self
        }
    }

    /// Whether the decoration is switched on. An inherited state is not
    /// on: at the root of a message nothing is.
    pub open spec fn spec_is_on(self) -> bool {
        self is On
    }

    /// Whether the decoration is switched on.
    #[verifier::when_used_as_spec(spec_is_on)]
    pub fn is_on(self) -> (res: bool)
        ensures
            res == self.spec_is_on(),
    {
        match self {
            StyleState::On => true,
            _ => false,
        }
    }

    /// This state if it holds an opinion, else `base`.
    #[verifier::when_used_as_spec(spec_or)]
    pub fn or(self, base: StyleState) -> (res: StyleState)
        ensures
            res == self.spec_or(base),
    {
        match self {
            StyleState::Inherit => base,
            _ => self,
        }
    }
}

/// Styling applied to the content of a message.
///
/// Every field is optional, so that styles can be laid over one another.
#[derive(Clone, Copy, Debug, PartialEq, Eq, Hash)]
pub struct MessageStyle {
    /// Foreground text color.
    pub color: Option<Color32>,
    /// Bold decoration.
    pub bold: StyleState,
    /// Italic decoration.
    pub italic: StyleState,
    /// Underline decoration.
    pub underline: StyleState,
    /// Strikethrough decoration.
    pub strikethrough: StyleState,
}

impl MessageStyle {
    /// The style that changes nothing when merged.
    pub open spec fn identity() -> MessageStyle {
        MessageStyle {
            color: None,
            bold: StyleState::Inherit,
            italic: StyleState::Inherit,
            underline: StyleState::Inherit,
            strikethrough: StyleState::Inherit,
        }
    }

    /// `from` laid over this style: field by field, the value of `from`
    /// where it holds one, else the value of this style.
    pub open spec fn spec_merged_from(self, from: MessageStyle) -> MessageStyle {
        MessageStyle {
            color: if from.color is Some { from.color } else { self.color },
            bold: from.bold.spec_or(self.bold),
            italic: from.italic.spec_or(self.italic),
            underline: from.underline.spec_or(self.underline),
            strikethrough: from.strikethrough.spec_or(self.strikethrough),
        }
    }

    /// Creates the identity style.
    pub fn new() -> (res: Self)
        ensures
            res == Self::identity(),
    {
        MessageStyle {
            color: None,
            bold: StyleState::Inherit,
            italic: StyleState::Inherit,
            underline: StyleState::Inherit,
            strikethrough: StyleState::Inherit,
        }
    }

    /// Whether this is the identity style.
    #[must_use]
    pub fn is_default(&self) -> (res: bool)
        ensures
            res == (*self == Self::identity()),
    {
        self.color.is_none() && self.bold == StyleState::Inherit && self.italic
            == StyleState::Inherit && self.underline == StyleState::Inherit && self.strikethrough
            == StyleState::Inherit
    }

    /// Merges `from` into this style; the values of `from` take precedence.
    pub fn merge_from(&mut self, from: Self)
        ensures
            *final(self) == old(self).spec_merged_from(from),
    {
        self.color = match from.color {
            Some(c) => Some(c),
            None => self.color,
        };
        self.bold = from.bold.or(self.bold);
        self.italic = from.italic.or(self.italic);
        self.underline = from.underline.or(self.underline);
        self.strikethrough = from.strikethrough.or(self.strikethrough);
    }

    /// The style that results from merging `from` on top of this one.
    #[must_use]
    #[verifier::when_used_as_spec(spec_merged_from)]
    pub fn merged_from(self, from: Self) -> (res: Self)
        ensures
            res == self.spec_merged_from(from),
    {
        let mut res = self;
        res.merge_from(from);
        res
    }
}

impl Default for MessageStyle {
    fn default() -> (res: Self)
        ensures
            res == MessageStyle::identity(),
    {
        MessageStyle::new()
    }
}

/// Merging with the identity style, on either side, changes nothing.
pub proof fn lemma_merge_identity(s: MessageStyle)
    ensures
        MessageStyle::identity().merged_from(s) == s,
        s.merged_from(MessageStyle::identity()) == s,
{
}

/// Merging decides every field on its own: the merged style has the field
/// of `b` where `b` holds a value for it, and else the field of `a`.
pub proof fn lemma_merge_fieldwise(a: MessageStyle, b: MessageStyle)
    ensures
        a.merged_from(b).color == (if b.color is Some {
            b.color
        } else {
            a.color
        }),
        a.merged_from(b).bold == (if b.bold != StyleState::Inherit {
            b.bold
        } else {
            a.bold
        }),
        a.merged_from(b).italic == (if b.italic != StyleState::Inherit {
            b.italic
        } else {
            a.italic
        }),
        a.merged_from(b).underline == (if b.underline != StyleState::Inherit {
            b.underline
        } else {
            a.underline
        }),
        a.merged_from(b).strikethrough == (if b.strikethrough != StyleState::Inherit {
            b.strikethrough
        } else {
            a.strikethrough
        }),
{
}

/// Laying `b` and then `c` over `a` is the same as laying over `a` the
/// merge of `b` and `c`.
pub proof fn lemma_merge_associative(a: MessageStyle, b: MessageStyle, c: MessageStyle)
    ensures
        a.merged_from(b).merged_from(c) == a.merged_from(b.merged_from(c)),
{
}

/// `s` after `overlay` has been merged into it `n` times.
pub open spec fn merged_repeatedly(s: MessageStyle, overlay: MessageStyle, n: nat) -> MessageStyle
    decreases n,
{
    if n == 0 {
        s
    } else {
        merged_repeatedly(s, overlay, (n - 1) as nat).merged_from(overlay)
    }
}

/// However often the identity style is merged into a style, the style
/// stays what it was.
pub proof fn lemma_identity_absorbed(s: MessageStyle, n: nat)
    ensures
        merged_repeatedly(s, MessageStyle::identity(), n) == s,
    decreases n,
{
    if n > 0 {
        lemma_identity_absorbed(s, (n - 1) as nat);
    }
}

/// A rich text message: a piece of text, the style applied to it, and
/// the messages appended to it.
///
/// Messages form a tree. The style of a node is kept as it was given; it is
/// combined with the styles of the enclosing nodes only when the tree is
/// flattened.
#[derive(Debug, PartialEq, Eq, Hash)]
pub struct Message {
    /// What text this message holds.
    pub content: String,
    /// Decoration and formatting applied to this message.
    pub style: MessageStyle,
    /// Child messages appended to this message, in output order.
    pub children: Vec<Message>,
}

/// The mathematical value of a [`Message`].
pub struct MessageView {
    /// The characters of the content.
    pub content: Seq<char>,
    /// The node's own style.
    pub style: MessageStyle,
    /// The values of the children, in order.
    pub children: Seq<MessageView>,
}

impl MessageView {
    /// A node without style and without children.
    pub open spec fn leaf(content: Seq<char>) -> MessageView {
        MessageView { content, style: MessageStyle::identity(), children: Seq::empty() }
    }

    /// This node with `child` appended behind its children.
    pub open spec fn with_child(self, child: MessageView) -> MessageView {
        MessageView { children: self.children.push(child), ..self }
    }

    /// This node with its own style replaced by `style`.
    pub open spec fn with_style(self, style: MessageStyle) -> MessageView {
        MessageView { style, ..self }
    }
}

impl View for Message {
    type V = MessageView;

    open spec fn view(&self) -> MessageView
        decreases self,
    {
        MessageView {
            content: self.content@,
            style: self.style,
            children: Message::views(self.children@),
        }
    }
}

impl Message {
    /// The values of a sequence of messages, in order.
    pub open spec fn views(messages: Seq<Message>) -> Seq<MessageView>
        decreases messages,
    {
        if messages.len() == 0 {
            Seq::empty()
        } else {
            Message::views(messages.drop_last()).push(messages.last()@)
        }
    }

    /// `views` keeps the length and takes the value of each message in place.
    pub proof fn lemma_views(messages: Seq<Message>)
        ensures
            Message::views(messages).len() == messages.len(),
            forall|i: int|
                0 <= i < messages.len() ==> #[trigger] Message::views(messages)[i]
                    == messages[i]@,
        decreases messages.len(),
    {
        if messages.len() > 0 {
            Message::lemma_views(messages.drop_last());
            assert(Message::views(messages) == Message::views(messages.drop_last()).push(
                messages.last()@,
            ));
        } else {
            assert(Message::views(messages) == Seq::<MessageView>::empty());
        }
    }

    /// The values of a sequence with one more message behind it.
    pub proof fn lemma_views_push(messages: Seq<Message>, last: Message)
        ensures
            Message::views(messages.push(last)) == Message::views(messages).push(last@),
    {
        assert(messages.push(last).drop_last() == messages);
        assert(Message::views(messages.push(last)) == Message::views(
            messages.push(last).drop_last(),
        ).push(messages.push(last).last()@));
    }

    /// The value of a message, field by field.
    pub proof fn lemma_view(&self)
        ensures
            self@.content == self.content@,
            self@.style == self.style,
            self@.children.len() == self.children@.len(),
            forall|i: int|
                0 <= i < self.children@.len() ==> #[trigger] self@.children[i]
                    == self.children@[i]@,
    {
        Message::lemma_views(self.children@);
    }

    /// Creates a message with the given content, the identity style and no
    /// children.
    pub fn new(content: &str) -> (res: Self)
        ensures
            res@ == MessageView::leaf(content@),
    {
        Message { content: content.to_owned(), style: MessageStyle::new(), children: Vec::new() }
    }
}

impl Clone for Message {
    fn clone(&self) -> (res: Self)
        ensures
            res@ == self@,
        decreases self,
    {
        let mut children: Vec<Message> = Vec::new();
        let mut i: usize = 0;
        while i < self.children.len()
            invariant
                i <= self.children.len(),
                children@.len() == i,
                forall|j: int| 0 <= j < i ==> children@[j]@ == self.children@[j]@,
            decreases self.children.len() - i,
        {
            children.push(self.children[i].clone());
            i += 1;
        }
        let res = Message { content: self.content.clone(), style: self.style, children };
        proof {
            res.lemma_view();
            self.lemma_view();
            assert(res@.children =~= self@.children);
        }
        res
    }
}

impl Default for Message {
    fn default() -> (res: Self)
        ensures
            res@ == MessageView::leaf(Seq::empty()),
    {
        Message { content: String::new(), style: MessageStyle::new(), children: Vec::new() }
    }
}

/// What can be turned into a [`Message`]: a message itself, or a string,
/// which becomes a message with the identity style and no children.
pub trait MessageSource: Sized {
    /// The value of the message that this value turns into.
    spec fn message(self) -> MessageView;

    /// Turns this value into a message.
    fn into_message(self) -> (res: Message)
        ensures
            res@ == self.message(),
    ;
}

impl MessageSource for Message {
    open spec fn message(self) -> MessageView {
        self@
    }

    fn into_message(self) -> (res: Message) {
        self
    }
}

impl MessageSource for &str {
    open spec fn message(self) -> MessageView {
        MessageView::leaf(self@)
    }

    fn into_message(self) -> (res: Message) {
        Message::from(self)
    }
}

impl MessageSource for String {
    open spec fn message(self) -> MessageView {
        MessageView::leaf(self@)
    }

    fn into_message(self) -> (res: Message) {
        Message::from(self)
    }
}

// Two messages of the same value need not be the same message to the
// verifier, so what a conversion returns is stated on `from` itself, over
// the view, and not through `from_spec`.
impl From<&str> for Message {
    fn from(value: &str) -> (res: Message)
        ensures
            res@ == MessageView::leaf(value@),
    {
        Message::new(value)
    }
}

impl vstd::std_specs::convert::FromSpecImpl<&str> for Message {
    open spec fn obeys_from_spec() -> bool {
        false
    }

    open spec fn from_spec(value: &str) -> Message {
        arbitrary()
    }
}

impl From<String> for Message {
    fn from(value: String) -> (res: Message)
        ensures
            res@ == MessageView::leaf(value@),
    {
        Message { content: value, style: MessageStyle::new(), children: Vec::new() }
    }
}

impl vstd::std_specs::convert::FromSpecImpl<String> for Message {
    open spec fn obeys_from_spec() -> bool {
        false
    }

    open spec fn from_spec(value: String) -> Message {
        arbitrary()
    }
}

/// Used to create a [`Message`] and to append to it.
pub trait IntoMessage: MessageSource {
    /// Converts this value into a [`Message`].
    fn into_text(self) -> (res: Message)
        ensures
            res@ == self.message(),
    ;

    /// Appends `with` to the end of this message's children.
    fn with<W: MessageSource>(self, with: W) -> (res: Message)
        ensures
            res@ == self.message().with_child(with.message()),
    ;
}

impl<T: MessageSource> IntoMessage for T {
    fn into_text(self) -> (res: Message) {
        self.into_message()
    }

    fn with<W: MessageSource>(self, with: W) -> (res: Message) {
        let mut text = self.into_message();
        let child = with.into_message();
        proof {
            Message::lemma_views_push(text.children@, child);
        }
        text.children.push(child);
        text
    }
}

/// Used to apply styling to a style or to a message.
///
/// Every operation changes the value's own style only: what a message's
/// children look like is decided when the message is flattened.
pub trait Styleable: Sized {
    /// The resulting type of all operations.
    type Out;

    /// The style that this value carries itself.
    spec fn own_style(self) -> MessageStyle;

    /// Whether `out` is this value with `style` in place of its own style
    /// and everything else untouched.
    spec fn restyled(self, style: MessageStyle, out: Self::Out) -> bool;

    /// Replaces the style of this value.
    fn with_style(self, style: MessageStyle) -> (out: Self::Out)
        ensures
            self.restyled(style, out),
    ;

    /// Changes the color state.
    fn with_color(self, color: Option<Color32>) -> (out: Self::Out)
        ensures
            self.restyled((MessageStyle { color, ..self.own_style() }), out),
    ;

    /// Changes the bold state.
    fn with_bold(self, state: StyleState) -> (out: Self::Out)
        ensures
            self.restyled((MessageStyle { bold: state, ..self.own_style() }), out),
    ;

    /// Changes the italic state.
    fn with_italic(self, state: StyleState) -> (out: Self::Out)
        ensures
            self.restyled((MessageStyle { italic: state, ..self.own_style() }), out),
    ;

    /// Changes the underline state.
    fn with_underline(self, state: StyleState) -> (out: Self::Out)
        ensures
            self.restyled((MessageStyle { underline: state, ..self.own_style() }), out),
    ;

    /// Changes the strikethrough state.
    fn with_strikethrough(self, state: StyleState) -> (out: Self::Out)
        ensures
            self.restyled((MessageStyle { strikethrough: state, ..self.own_style() }), out),
    ;

    /// Sets a color.
    fn color(self, color: Color32) -> (out: Self::Out)
        ensures
            self.restyled((MessageStyle { color: Some(color), ..self.own_style() }), out),
    {
        self.with_color(Some(color))
    }

    /// Sets bold to be enabled.
    fn bold(self) -> (out: Self::Out)
        ensures
            self.restyled((MessageStyle { bold: StyleState::On, ..self.own_style() }), out),
    {
        self.with_bold(StyleState::On)
    }

    /// Sets bold to be disabled.
    fn no_bold(self) -> (out: Self::Out)
        ensures
            self.restyled((MessageStyle { bold: StyleState::Off, ..self.own_style() }), out),
    {
        self.with_bold(StyleState::Off)
    }

    /// Sets italic to be enabled.
    fn italic(self) -> (out: Self::Out)
        ensures
            self.restyled((MessageStyle { italic: StyleState::On, ..self.own_style() }), out),
    {
        self.with_italic(StyleState::On)
    }

    /// Sets italic to be disabled.
    fn no_italic(self) -> (out: Self::Out)
        ensures
            self.restyled((MessageStyle { italic: StyleState::Off, ..self.own_style() }), out),
    {
        self.with_italic(StyleState::Off)
    }

    /// Sets underline to be enabled.
    fn underline(self) -> (out: Self::Out)
        ensures
            self.restyled((MessageStyle { underline: StyleState::On, ..self.own_style() }), out),
    {
        self.with_underline(StyleState::On)
    }

    /// Sets underline to be disabled.
    fn no_underline(self) -> (out: Self::Out)
        ensures
            self.restyled((MessageStyle { underline: StyleState::Off, ..self.own_style() }), out),
    {
        self.with_underline(StyleState::Off)
    }

    /// Sets strikethrough to be enabled.
    fn strikethrough(self) -> (out: Self::Out)
        ensures
            self.restyled((MessageStyle { strikethrough: StyleState::On, ..self.own_style() }), out),
    {
        self.with_strikethrough(StyleState::On)
    }

    /// Sets strikethrough to be disabled.
    fn no_strikethrough(self) -> (out: Self::Out)
        ensures
            self.restyled((MessageStyle { strikethrough: StyleState::Off, ..self.own_style() }), out),
    {
        self.with_strikethrough(StyleState::Off)
    }
}

impl Styleable for MessageStyle {
    type Out = Self;

    open spec fn own_style(self) -> MessageStyle {
        self
    }

    open spec fn restyled(self, style: MessageStyle, out: MessageStyle) -> bool {
        out == style
    }

    fn with_style(self, style: MessageStyle) -> (out: MessageStyle) {
        style
    }

    fn with_color(self, color: Option<Color32>) -> (out: MessageStyle) {
        let mut out = self;
        out.color = color;
        out
    }

    fn with_bold(self, state: StyleState) -> (out: MessageStyle) {
        let mut out = self;
        out.bold = state;
        out
    }

    fn with_italic(self, state: StyleState) -> (out: MessageStyle) {
        let mut out = self;
        out.italic = state;
        out
    }

    fn with_underline(self, state: StyleState) -> (out: MessageStyle) {
        let mut out = self;
        out.underline = state;
        out
    }

    fn with_strikethrough(self, state: StyleState) -> (out: MessageStyle) {
        let mut out = self;
        out.strikethrough = state;
        out
    }
}

impl<T: MessageSource> Styleable for T {
    type Out = Message;

    open spec fn own_style(self) -> MessageStyle {
        self.message().style
    }

    open spec fn restyled(self, style: MessageStyle, out: Message) -> bool {
        out@ == self.message().with_style(style)
    }

    fn with_style(self, style: MessageStyle) -> (out: Message) {
        let mut text = self.into_message();
        text.style = style;
        text
    }

    fn with_color(self, color: Option<Color32>) -> (out: Message) {
        let mut text = self.into_message();
        text.style.color = color;
        text
    }

    fn with_bold(self, state: StyleState) -> (out: Message) {
        let mut text = self.into_message();
        text.style.bold = state;
        text
    }

    fn with_italic(self, state: StyleState) -> (out: Message) {
        let mut text = self.into_message();
        text.style.italic = state;
        text
    }

    fn with_underline(self, state: StyleState) -> (out: Message) {
        let mut text = self.into_message();
        text.style.underline = state;
        text
    }

    fn with_strikethrough(self, state: StyleState) -> (out: Message) {
        let mut text = self.into_message();
        text.style.strikethrough = state;
        text
    }
}

} // verus!
