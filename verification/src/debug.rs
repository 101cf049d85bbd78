//! Compact, human-readable dumps of styles and messages.

use crate::color::color_rgba;
use crate::text::{Message, MessageStyle, MessageView, StyleState};
use ecolor::Color32;
use itertools::Itertools;
use vstd::prelude::*;

verus! {

/// `parts` with `separator` between every two of them.
pub open spec fn joined(parts: Seq<Seq<char>>, separator: Seq<char>) -> Seq<char>
    decreases parts.len(),
{
    if parts.len() == 0 {
        Seq::empty()
    } else if parts.len() == 1 {
        parts[0]
    } else {
        joined(parts.drop_last(), separator) + separator + parts.last()
    }
}

/// The characters of each of `parts`.
pub open spec fn texts(parts: Seq<String>) -> Seq<Seq<char>> {
    parts.map_values(|part: String| part@)
}

/// Joins strings with `Itertools::join`, which writes the first string and
/// then, for each further one, the separator and the string; of no strings
/// it makes the empty string.
#[verifier::external_body]
fn join(parts: &Vec<String>, separator: &str) -> (res: String)
    ensures
        res@ == joined(texts(parts@), separator@),
{
    parts.iter().join(separator)
}

/// How the standard library's `Debug` shows a string: in double quotes, with
/// the characters that need it escaped.
pub uninterp spec fn str_debug(content: Seq<char>) -> Seq<char>;

/// Formats a string with `{:?}`.
#[verifier::external_body]
fn debug_str(content: &str) -> (res: String)
    ensures
        res@ == str_debug(content@),
{
    format!("{:?}", content)
}

/// A byte as two upper-case hexadecimal digits.
pub open spec fn hex_pair(byte: u8) -> Seq<char> {
    seq!["0123456789ABCDEF"@[byte as int / 16], "0123456789ABCDEF"@[byte as int % 16]]
}

/// How `ecolor` shows a color of the given four channel bytes: a `#`, then
/// the bytes in hexadecimal, with `_` between them.
pub open spec fn color_debug(rgba: Seq<u8>) -> Seq<char> {
    seq!['#'] + hex_pair(rgba[0]) + seq!['_'] + hex_pair(rgba[1]) + seq!['_'] + hex_pair(rgba[2])
        + seq!['_'] + hex_pair(rgba[3])
}

/// Formats a color with `{:?}`, for which `Color32` writes
/// `#{r:02X}_{g:02X}_{b:02X}_{a:02X}` over its four channel bytes.
#[verifier::external_body]
fn debug_color(color: Color32) -> (res: String)
    ensures
        res@ == color_debug(color_rgba(color)),
{
    format!("{:?}", color)
}

/// The part, if there is one, as a sequence of parts.
pub open spec fn part(text: Option<Seq<char>>) -> Seq<Seq<char>> {
    match text {
        Some(text) => seq![text],
        None => Seq::empty(),
    }
}

/// How a decoration is shown: not at all while it is inherited, by its
/// name when it is on, and by its name behind a `!` when it is off.
pub open spec fn decoration_debug(state: StyleState, name: Seq<char>) -> Option<Seq<char>> {
    match state {
        StyleState::Inherit => None,
        StyleState::On => Some(name),
        StyleState::Off => Some(seq!['!'] + name),
    }
}

/// Shows a decoration, if it holds an opinion.
fn decoration(state: StyleState, name: &str) -> (res: Option<String>)
    ensures
        match decoration_debug(state, name@) {
            Some(text) => res is Some && res->0@ == text,
            None => res is None,
        },
{
    match state {
        StyleState::Inherit => None,
        StyleState::On => Some(name.to_owned()),
        StyleState::Off => {
            let off = String::from_str("!");
            proof {
                reveal_strlit("!");
                assert("!"@ == seq!['!']);
            }
            Some(off.concat(name))
        },
    }
}

/// Appends `text` to `parts`, if there is one.
fn push_part(parts: &mut Vec<String>, text: Option<String>)
    ensures
        texts(final(parts)@) == texts(old(parts)@) + part(
            match text {
                Some(text) => Some(text@),
                None => None,
            },
        ),
{
    match text {
        Some(text) => {
            parts.push(text);
            assert(texts(parts@) == texts(old(parts)@) + seq![text@]);
        },
        None => {
            assert(texts(parts@) + Seq::empty() == texts(parts@));
        },
    }
}

impl MessageStyle {
    /// What this style shows itself as: the fields that hold a value, in the
    /// order color, bold, italic, underline, strikethrough, with ` + `
    /// between them.
    pub open spec fn debug_text(self) -> Seq<char> {
        joined(
            part(
                match self.color {
                    Some(color) => Some(color_debug(color_rgba(color))),
                    None => None,
                },
            ) + part(decoration_debug(self.bold, "Bold"@)) + part(
                decoration_debug(self.italic, "Italic"@),
            ) + part(decoration_debug(self.underline, "Underline"@)) + part(
                decoration_debug(self.strikethrough, "Strikethrough"@),
            ),
            " + "@,
        )
    }

    /// Shows this style in a compact form, such as `#FF_00_00_FF + Bold +
    /// !Italic`.
    pub fn debug_string(&self) -> (res: String)
        ensures
            res@ == self.debug_text(),
    {
        let mut parts: Vec<String> = Vec::new();
        assert(texts(parts@) == Seq::<Seq<char>>::empty());
        let color = match self.color {
            Some(color) => Some(debug_color(color)),
            None => None,
        };
        push_part(&mut parts, color);
        push_part(&mut parts, decoration(self.bold, "Bold"));
        push_part(&mut parts, decoration(self.italic, "Italic"));
        push_part(&mut parts, decoration(self.underline, "Underline"));
        push_part(&mut parts, decoration(self.strikethrough, "Strikethrough"));
        join(&parts, " + ")
    }
}

impl MessageView {
    /// What this message shows itself as. Its parts are the content in
    /// quotes unless it is empty, the style unless it is the identity style,
    /// and the children in square brackets unless there are none. One part
    /// alone stands for the message; else the parts stand between round
    /// brackets.
    pub open spec fn debug_text(self) -> Seq<char>
        decreases self,
    {
        let parts = part(
            if self.content.len() == 0 {
                None
            } else {
                Some(str_debug(self.content))
            },
        ) + part(
            if self.style == MessageStyle::identity() {
                None
            } else {
                Some(self.style.debug_text())
            },
        ) + part(
            if self.children.len() == 0 {
                None
            } else {
                Some(
                    seq!['['] + joined(MessageView::debug_text_all(self.children), ", "@)
                        + seq![']'],
                )
            },
        );
        if parts.len() == 1 {
            parts[0]
        } else {
            seq!['('] + joined(parts, ", "@) + seq![')']
        }
    }

    /// What each of `messages` shows itself as.
    pub open spec fn debug_text_all(messages: Seq<MessageView>) -> Seq<Seq<char>>
        decreases messages,
    {
        if messages.len() == 0 {
            Seq::empty()
        } else {
            MessageView::debug_text_all(messages.drop_last()).push(messages.last().debug_text())
        }
    }
}

/// `text` between the two brackets.
fn bracketed(left: &str, text: String, right: &str) -> (res: String)
    ensures
        res@ == left@ + text@ + right@,
{
    String::from_str(left).concat(text.as_str()).concat(right)
}

impl Message {
    /// Shows this message in a compact form, such as
    /// `("one", Bold, ["two", "three"])`.
    pub fn debug_string(&self) -> (res: String)
        ensures
            res@ == self@.debug_text(),
        decreases self,
    {
        proof {
            self.lemma_view();
            reveal_strlit("[");
            reveal_strlit("]");
            reveal_strlit("(");
            reveal_strlit(")");
            assert("["@ == seq!['['] && "]"@ == seq![']']);
            assert("("@ == seq!['('] && ")"@ == seq![')']);
        }
        let mut parts: Vec<String> = Vec::new();
        assert(texts(parts@) == Seq::<Seq<char>>::empty());
        let content = if self.content.as_str().is_empty() {
            None
        } else {
            Some(debug_str(self.content.as_str()))
        };
        push_part(&mut parts, content);
        let style = if self.style.is_default() {
            None
        } else {
            Some(self.style.debug_string())
        };
        push_part(&mut parts, style);
        let children = if self.children.len() == 0 {
            None
        } else {
            let mut shown: Vec<String> = Vec::new();
            let mut i: usize = 0;
            assert(self@.children.take(0) == Seq::<MessageView>::empty());
            assert(texts(shown@) == MessageView::debug_text_all(self@.children.take(0)));
            while i < self.children.len()
                invariant
                    i <= self.children.len(),
                    self@.children.len() == self.children@.len(),
                    forall|j: int|
                        0 <= j < self.children@.len() ==> #[trigger] self@.children[j]
                            == self.children@[j]@,
                    texts(shown@) == MessageView::debug_text_all(self@.children.take(i as int)),
                decreases self.children.len() - i,
            {
                let child = self.children[i].debug_string();
                proof {
                    let done = self@.children.take(i as int);
                    let next = self@.children.take(i + 1);
                    assert(next.drop_last() == done);
                    assert(next.last() == self.children@[i as int]@);
                    assert(MessageView::debug_text_all(next) == MessageView::debug_text_all(
                        done,
                    ).push(next.last().debug_text()));
                    assert(texts(shown@.push(child)) == texts(shown@).push(child@));
                }
                shown.push(child);
                i += 1;
            }
            assert(self@.children.take(i as int) == self@.children);
            Some(bracketed("[", join(&shown, ", "), "]"))
        };
        push_part(&mut parts, children);
        if parts.len() == 1 {
            parts[0].clone()
        } else {
            bracketed("(", join(&parts, ", "), ")")
        }
    }
}

} // verus!
