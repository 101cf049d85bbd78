//! Writing messages as colored text, using `termcolor`.

use crate::color::{channels, color_rgba};
use crate::text::{Message, MessageStyle};
use crate::util::span_views;
use std::io::Write;
use termcolor::{Buffer, Color, ColorSpec, WriteColor};
use vstd::prelude::*;

verus! {

/// `termcolor::Buffer`, an in-memory writer of colored text. It either
/// embeds colors as ANSI escape sequences among the bytes written to it, or
/// keeps the bytes free of them.
#[verifier::external_type_specification]
#[verifier::external_body]
pub struct ExBuffer(termcolor::Buffer);

/// The bytes that a buffer holds.
pub uninterp spec fn buffer_bytes(buffer: termcolor::Buffer) -> Seq<u8>;

/// Whether a buffer embeds ANSI escape sequences, as one made by
/// `Buffer::ansi` does and one made by `Buffer::no_color` does not.
pub uninterp spec fn buffer_is_ansi(buffer: termcolor::Buffer) -> bool;

/// The escape sequences by which `termcolor` switches an ANSI terminal to a
/// foreground color, given by its red, green and blue, and a set of
/// decorations, after resetting what was set before.
pub uninterp spec fn ansi_codes(
    fg: Option<(u8, u8, u8)>,
    bold: bool,
    italic: bool,
    underline: bool,
    strikethrough: bool,
) -> Seq<u8>;

/// Calls `WriteColor::set_color` on a buffer, with a `ColorSpec` that holds
/// the given foreground and decorations and is otherwise as `ColorSpec::new`
/// makes it. A buffer that embeds ANSI sequences appends the sequences for
/// that specification to its bytes; any other buffer leaves its bytes as they
/// are. Writing to a buffer does not fail.
#[verifier::external_body]
fn set_color(
    writer: &mut Buffer,
    fg: Option<(u8, u8, u8)>,
    bold: bool,
    italic: bool,
    underline: bool,
    strikethrough: bool,
)
    ensures
        buffer_is_ansi(*final(writer)) == buffer_is_ansi(*old(writer)),
        buffer_bytes(*final(writer)) == buffer_bytes(*old(writer)) + (if buffer_is_ansi(
            *old(writer),
        ) {
            ansi_codes(fg, bold, italic, underline, strikethrough)
        } else {
            Seq::empty()
        }),
{
    let mut spec = ColorSpec::new();
    spec.set_fg(fg.map(|(r, g, b)| Color::Rgb(r, g, b)));
    spec.set_bold(bold).set_italic(italic).set_underline(underline).set_strikethrough(strikethrough);
    let _ = writer.set_color(&spec);
}

/// Writes a string to a buffer with `write!`, which appends the string's
/// UTF-8 bytes to the bytes of the buffer.
#[verifier::external_body]
fn write_str(writer: &mut Buffer, content: &str)
    ensures
        buffer_is_ansi(*final(writer)) == buffer_is_ansi(*old(writer)),
        buffer_bytes(*final(writer)) == buffer_bytes(*old(writer)) + vstd::utf8::encode_utf8(
            content@,
        ),
{
    let _ = write!(writer, "{}", content);
}

/// What a terminal is asked for when text of some style is written to it.
#[derive(Clone, Copy, Debug, PartialEq, Eq)]
pub struct TermStyle {
    /// The red, green and blue of the foreground color, if one is set.
    pub fg: Option<(u8, u8, u8)>,
    /// Whether the text is bold.
    pub bold: bool,
    /// Whether the text is italic.
    pub italic: bool,
    /// Whether the text is underlined.
    pub underline: bool,
    /// Whether the text is struck through.
    pub strikethrough: bool,
}

impl MessageStyle {
    /// What a terminal is asked for this style: the first three channels of
    /// its color, and each decoration that is on.
    pub open spec fn spec_term_style(self) -> TermStyle {
        TermStyle {
            fg: match self.color {
                Some(color) => Some(
                    (color_rgba(color)[0], color_rgba(color)[1], color_rgba(color)[2]),
                ),
                None => None,
            },
            bold: self.bold.is_on(),
            italic: self.italic.is_on(),
            underline: self.underline.is_on(),
            strikethrough: self.strikethrough.is_on(),
        }
    }

    /// What a terminal is asked for this style. A decoration that is
    /// inherited or off is not asked for.
    #[verifier::when_used_as_spec(spec_term_style)]
    pub fn term_style(self) -> (res: TermStyle)
        ensures
            res == self.spec_term_style(),
    {
        TermStyle {
            fg: match self.color {
                Some(color) => {
                    let rgba = channels(color);
                    Some((rgba[0], rgba[1], rgba[2]))
                },
                None => None,
            },
            bold: self.bold.is_on(),
            italic: self.italic.is_on(),
            underline: self.underline.is_on(),
            strikethrough: self.strikethrough.is_on(),
        }
    }
}

/// The bytes that one piece of content with its resolved style comes to: on
/// a buffer that embeds ANSI sequences, the sequences for the style; then the
/// content.
pub open spec fn span_bytes(span: (Seq<char>, MessageStyle), ansi: bool) -> Seq<u8> {
    let style = span.1.term_style();
    let codes = if ansi {
        ansi_codes(style.fg, style.bold, style.italic, style.underline, style.strikethrough)
    } else {
        Seq::empty()
    };
    codes + vstd::utf8::encode_utf8(span.0)
}

/// The bytes that a sequence of resolved contents comes to.
pub open spec fn rendered(spans: Seq<(Seq<char>, MessageStyle)>, ansi: bool) -> Seq<u8>
    decreases spans.len(),
{
    if spans.len() == 0 {
        Seq::empty()
    } else {
        rendered(spans.drop_last(), ansi) + span_bytes(spans.last(), ansi)
    }
}

impl Message {
    /// Writes this message as a colored message to a `termcolor` buffer.
    ///
    /// The message is flattened; for every node, in traversal order, the
    /// buffer is switched to the node's resolved style and given the node's
    /// content.
    pub fn write(&self, writer: &mut Buffer)
        ensures
            buffer_is_ansi(*final(writer)) == buffer_is_ansi(*old(writer)),
            buffer_bytes(*final(writer)) == buffer_bytes(*old(writer)) + rendered(
                self@.resolved(MessageStyle::identity()),
                buffer_is_ansi(*old(writer)),
            ),
    {
        let spans = self.styled_spans();
        let ghost ansi = buffer_is_ansi(*writer);
        let ghost start = buffer_bytes(*writer);
        let ghost all = span_views(spans@);
        assert(start + rendered(all.take(0), ansi) == start);
        let mut i: usize = 0;
        while i < spans.len()
            invariant
                i <= spans.len(),
                all == span_views(spans@),
                buffer_is_ansi(*writer) == ansi,
                buffer_bytes(*writer) == start + rendered(all.take(i as int), ansi),
            decreases spans.len() - i,
        {
            let style = spans[i].1.term_style();
            set_color(
                writer,
                style.fg,
                style.bold,
                style.italic,
                style.underline,
                style.strikethrough,
            );
            write_str(writer, spans[i].0.as_str());
            proof {
                let done = all.take(i as int);
                let next = all.take(i + 1);
                assert(next.drop_last() == done);
                assert(next.last() == (spans@[i as int].0@, spans@[i as int].1));
                assert(rendered(next, ansi) == rendered(done, ansi) + span_bytes(
                    next.last(),
                    ansi,
                ));
            }
            i += 1;
        }
        assert(all.take(i as int) == all);
    }
}

} // verus!
