use expedition::{
    Color32, IntoMessage, Message, MessageSource, MessageStyle, StyleState, Styleable,
};

fn styles() -> Vec<MessageStyle> {
    vec![
        MessageStyle::new(),
        MessageStyle::new().color(Color32::RED),
        MessageStyle::new().bold().no_italic(),
        MessageStyle::new().color(Color32::BLUE).no_bold().underline(),
        MessageStyle::new().italic().no_underline().strikethrough(),
        MessageStyle::new()
            .color(Color32::from_rgb(1, 2, 3))
            .bold()
            .italic()
            .underline()
            .no_strikethrough(),
    ]
}

#[test]
fn default() {
    assert_eq!(
        Message {
            content: String::new(),
            style: MessageStyle {
                color: None,
                bold: StyleState::Inherit,
                italic: StyleState::Inherit,
                underline: StyleState::Inherit,
                strikethrough: StyleState::Inherit,
            },
            children: Vec::new(),
        },
        Message::default(),
    );
}

#[test]
fn with() {
    assert_eq!(
        Message {
            content: "one".to_owned(),
            children: vec![Message::new("two"), Message::new("three")],
            ..Default::default()
        },
        "one".with("two").with("three"),
    )
}

#[test]
fn new_style_is_the_default_style() {
    assert_eq!(MessageStyle::default(), MessageStyle::new());
    assert_eq!(StyleState::Inherit, StyleState::default());
    assert!(MessageStyle::new().is_default());
    assert!(!MessageStyle::new().bold().is_default());
    assert!(!MessageStyle::new().no_bold().is_default());
    assert!(!MessageStyle::new().color(Color32::RED).is_default());
    assert!(MessageStyle::new().color(Color32::RED).with_color(None).is_default());
}

#[test]
fn state_or_keeps_an_opinion() {
    assert_eq!(StyleState::On, StyleState::Inherit.or(StyleState::On));
    assert_eq!(StyleState::Off, StyleState::Inherit.or(StyleState::Off));
    assert_eq!(StyleState::Inherit, StyleState::Inherit.or(StyleState::Inherit));
    assert_eq!(StyleState::On, StyleState::On.or(StyleState::Off));
    assert_eq!(StyleState::Off, StyleState::Off.or(StyleState::On));
    assert_eq!(StyleState::Off, StyleState::Off.or(StyleState::Inherit));
}

#[test]
fn merging_with_the_identity_changes_nothing() {
    for style in styles() {
        assert_eq!(style, MessageStyle::new().merged_from(style));
        assert_eq!(style, style.merged_from(MessageStyle::new()));
    }
}

#[test]
fn merging_decides_every_field_on_its_own() {
    for a in styles() {
        for b in styles() {
            let merged = a.merged_from(b);
            assert_eq!(if b.color.is_some() { b.color } else { a.color }, merged.color);
            assert_eq!(if b.bold != StyleState::Inherit { b.bold } else { a.bold }, merged.bold);
            assert_eq!(
                if b.italic != StyleState::Inherit { b.italic } else { a.italic },
                merged.italic
            );
            assert_eq!(
                if b.underline != StyleState::Inherit { b.underline } else { a.underline },
                merged.underline
            );
            assert_eq!(
                if b.strikethrough != StyleState::Inherit { b.strikethrough } else { a.strikethrough },
                merged.strikethrough
            );
        }
    }
}

#[test]
fn merge_takes_the_overlay_where_it_is_set() {
    let base = MessageStyle::new().color(Color32::RED).bold().italic();
    let overlay = MessageStyle::new().color(Color32::BLUE).no_bold().underline();
    assert_eq!(
        MessageStyle {
            color: Some(Color32::BLUE),
            bold: StyleState::Off,
            italic: StyleState::On,
            underline: StyleState::On,
            strikethrough: StyleState::Inherit,
        },
        base.merged_from(overlay),
    );
}

#[test]
fn merge_from_changes_the_style_in_place() {
    for a in styles() {
        for b in styles() {
            let mut merged = a;
            merged.merge_from(b);
            assert_eq!(a.merged_from(b), merged);
        }
    }
}

#[test]
fn merging_is_associative() {
    for a in styles() {
        for b in styles() {
            for c in styles() {
                assert_eq!(a.merged_from(b).merged_from(c), a.merged_from(b.merged_from(c)));
            }
        }
    }
}

#[test]
fn merging_the_identity_repeatedly_changes_nothing() {
    for style in styles() {
        let mut merged = style;
        for _ in 0..10 {
            merged.merge_from(MessageStyle::new());
            assert_eq!(style, merged);
        }
    }
}

#[test]
fn merging_a_style_twice_is_merging_it_once() {
    for a in styles() {
        for b in styles() {
            assert_eq!(a.merged_from(b), a.merged_from(b).merged_from(b));
        }
    }
}

#[test]
fn new_message_is_a_leaf() {
    let msg = Message::new("Hello world!");
    assert_eq!("Hello world!", msg.content);
    assert!(msg.style.is_default());
    assert!(msg.children.is_empty());
    assert_eq!(msg, "Hello world!".into_text());
    assert_eq!(msg, String::from("Hello world!").into_text());
    assert_eq!(msg, "Hello world!".into_message());
    assert_eq!(msg, msg.clone().into_text());
}

#[test]
fn strings_convert_to_leaves() {
    assert_eq!(Message::new("x"), Message::from("x"));
    assert_eq!(Message::new("x"), Message::from(String::from("x")));
    let converted: Message = "x".into();
    assert_eq!(Message::new("x"), converted);
    assert_eq!(Message::default(), Message::new(""));
}

#[test]
fn only_on_is_on() {
    assert!(StyleState::On.is_on());
    assert!(!StyleState::Off.is_on());
    assert!(!StyleState::Inherit.is_on());
}

#[test]
fn append_order_is_call_order() {
    let msg = "a".with("b").with("c");
    assert_eq!("a", msg.content);
    assert_eq!(vec![Message::new("b"), Message::new("c")], msg.children);
    assert_ne!(vec![Message::new("c"), Message::new("b")], msg.children);
}

#[test]
fn with_takes_strings_and_messages() {
    let msg1 = Message::new("Unstyled text, ")
        .with(Message::new("red text, ").color(Color32::RED))
        .with(Message::new("blue text").color(Color32::BLUE));
    let msg2 = "Unstyled text, "
        .with("red text, ".color(Color32::RED))
        .with(String::from("blue text").color(Color32::BLUE));
    assert_eq!(msg1, msg2);
    assert_eq!(2, msg1.children.len());
    assert_eq!(Some(Color32::RED), msg1.children[0].style.color);
    assert_eq!(Some(Color32::BLUE), msg1.children[1].style.color);
    assert!(msg1.style.is_default());
}

#[test]
fn setters_change_one_field_of_a_style() {
    let base = MessageStyle::new().color(Color32::RED).bold().no_underline();
    assert_eq!(MessageStyle { color: Some(Color32::BLUE), ..base }, base.color(Color32::BLUE));
    assert_eq!(MessageStyle { color: None, ..base }, base.with_color(None));
    assert_eq!(MessageStyle { bold: StyleState::On, ..base }, base.bold());
    assert_eq!(MessageStyle { bold: StyleState::Off, ..base }, base.no_bold());
    assert_eq!(MessageStyle { bold: StyleState::Inherit, ..base }, base.with_bold(StyleState::Inherit));
    assert_eq!(MessageStyle { italic: StyleState::On, ..base }, base.italic());
    assert_eq!(MessageStyle { italic: StyleState::Off, ..base }, base.no_italic());
    assert_eq!(MessageStyle { italic: StyleState::Off, ..base }, base.with_italic(StyleState::Off));
    assert_eq!(MessageStyle { underline: StyleState::On, ..base }, base.underline());
    assert_eq!(MessageStyle { underline: StyleState::Off, ..base }, base.no_underline());
    assert_eq!(
        MessageStyle { underline: StyleState::Inherit, ..base },
        base.with_underline(StyleState::Inherit)
    );
    assert_eq!(MessageStyle { strikethrough: StyleState::On, ..base }, base.strikethrough());
    assert_eq!(MessageStyle { strikethrough: StyleState::Off, ..base }, base.no_strikethrough());
    assert_eq!(
        MessageStyle { strikethrough: StyleState::On, ..base },
        base.with_strikethrough(StyleState::On)
    );
    let other = MessageStyle::new().italic();
    assert_eq!(other, base.with_style(other));
}

#[test]
fn setters_change_the_own_style_of_a_message_only() {
    let base = "parent".bold().with("child".italic());
    let styled = base.clone().color(Color32::RED).no_bold().underline().no_strikethrough();
    assert_eq!(base.content, styled.content);
    assert_eq!(base.children, styled.children);
    assert_eq!(
        MessageStyle {
            color: Some(Color32::RED),
            bold: StyleState::Off,
            italic: StyleState::Inherit,
            underline: StyleState::On,
            strikethrough: StyleState::Off,
        },
        styled.style,
    );
    assert_eq!(MessageStyle::new().italic(), styled.children[0].style);

    let replaced = base.clone().with_style(MessageStyle::new().strikethrough());
    assert_eq!(MessageStyle::new().strikethrough(), replaced.style);
    assert_eq!(base.children, replaced.children);
    assert_eq!(None, styled.with_color(None).style.color);
    assert_eq!(StyleState::On, "x".with_italic(StyleState::On).style.italic);
    assert_eq!(StyleState::Off, "x".with_underline(StyleState::Off).style.underline);
    assert_eq!(StyleState::On, "x".with_strikethrough(StyleState::On).style.strikethrough);
    assert_eq!(StyleState::Off, "x".bold().with_bold(StyleState::Off).style.bold);
}

#[test]
fn clone_copies_the_whole_tree() {
    let msg = "Red text, "
        .color(Color32::RED)
        .with("still red text, ")
        .with("red and italic, ".italic().with("nested".no_italic()))
        .with("blue and not italic".color(Color32::BLUE));
    let copy = msg.clone();
    assert_eq!(msg, copy);
    assert_eq!(3, copy.children.len());
    assert_eq!("nested", copy.children[1].children[0].content);
}
