use expedition::{
    Color32, IntoMessage, Message, MessageFlattener, MessageStyle, StackFlattener, StyleState,
    Styleable,
};

/// Records every call as text, and watches that styles are left in the
/// reverse of the order in which they were entered.
struct Recorder {
    open: Vec<MessageStyle>,
    log: Vec<String>,
    pushes: usize,
    contents: usize,
    pops: usize,
    nested: bool,
}

impl Recorder {
    fn new() -> Self {
        Recorder { open: Vec::new(), log: Vec::new(), pushes: 0, contents: 0, pops: 0, nested: true }
    }
}

impl MessageFlattener for Recorder {
    fn push_style(&mut self, style: MessageStyle) {
        self.pushes += 1;
        self.open.push(style);
        self.log.push(format!("push {}", style.debug_string()));
    }

    fn content(&mut self, content: &str) {
        self.contents += 1;
        self.log.push(format!("content {:?}", content));
    }

    fn pop_style(&mut self, style: MessageStyle) {
        self.pops += 1;
        if self.open.pop() != Some(style) {
            self.nested = false;
        }
        self.log.push(format!("pop {}", style.debug_string()));
    }
}

fn node_count(msg: &Message) -> usize {
    let mut count = 1;
    for child in &msg.children {
        count += node_count(child);
    }
    count
}

fn in_order(msg: &Message, out: &mut String) {
    out.push_str(&msg.content);
    for child in &msg.children {
        in_order(child, out);
    }
}

fn samples() -> Vec<Message> {
    vec![
        Message::default(),
        Message::new("leaf"),
        "a".with("b".with("c")).with("d"),
        "".bold().with("".with("deep".italic().with("deeper".no_italic()))),
        "Unstyled, "
            .with("Red ".color(Color32::RED).with("and some bold ".bold()))
            .with("Blue ".color(Color32::BLUE).with("and italic ".italic()))
            .with("but no longer ")
            .with("underline".underline())
            .with(" EVERYTHING".bold().italic().underline().strikethrough()),
    ]
}

#[test]
fn flatten_enters_gives_content_descends_and_leaves() {
    let msg = "a".bold().with("b".with("c".italic())).with("");
    let mut recorder = Recorder::new();
    msg.flatten(&mut recorder);
    assert_eq!(
        vec![
            "push Bold",
            "content \"a\"",
            "push ",
            "content \"b\"",
            "push Italic",
            "content \"c\"",
            "pop Italic",
            "pop ",
            "push ",
            "content \"\"",
            "pop ",
            "pop Bold",
        ],
        recorder.log,
    );
}

#[test]
fn flatten_is_balanced() {
    for msg in samples() {
        let mut recorder = Recorder::new();
        msg.flatten(&mut recorder);
        assert_eq!(node_count(&msg), recorder.pushes);
        assert_eq!(node_count(&msg), recorder.contents);
        assert_eq!(node_count(&msg), recorder.pops);
        assert!(recorder.nested);
        assert!(recorder.open.is_empty());
    }
}

#[test]
fn flatten_gives_empty_content_too() {
    let mut recorder = Recorder::new();
    Message::default().flatten(&mut recorder);
    assert_eq!(vec!["push ", "content \"\"", "pop "], recorder.log);
}

#[test]
fn flatten_does_not_change_the_message() {
    for msg in samples() {
        let before = msg.clone();
        let mut flattener = StackFlattener::new();
        msg.flatten(&mut flattener);
        assert_eq!(before, msg);
    }
}

#[test]
fn plain_text_is_the_content_in_order() {
    let msg = Message::new("a").with(Message::new("b").with(Message::new("c"))).with(Message::new("d"));
    assert_eq!("abcd", msg.to_string());
    for msg in samples() {
        let mut expected = String::new();
        in_order(&msg, &mut expected);
        assert_eq!(expected, msg.to_string());
    }
}

#[test]
fn plain_text_ignores_all_styling() {
    let msg = "Hello, ".with("world!");
    assert_eq!("Hello, world!", msg.to_string());
    let msg = "This ignores all styling".color(Color32::RED).italic().bold();
    assert_eq!("This ignores all styling", msg.to_string());
    assert_eq!("", Message::default().to_string());
}

#[test]
fn children_inherit_the_style_of_the_root() {
    let msg = ""
        .color(Color32::RED)
        .with("x")
        .with("y".color(Color32::BLUE).italic());
    let spans = msg.styled_spans();
    assert_eq!(3, spans.len());
    assert_eq!((String::new(), MessageStyle::new().color(Color32::RED)), spans[0]);
    assert_eq!(("x".to_owned(), MessageStyle::new().color(Color32::RED)), spans[1]);
    assert_eq!(
        (
            "y".to_owned(),
            MessageStyle {
                color: Some(Color32::BLUE),
                bold: StyleState::Inherit,
                italic: StyleState::On,
                underline: StyleState::Inherit,
                strikethrough: StyleState::Inherit,
            }
        ),
        spans[2]
    );
}

#[test]
fn explicit_off_overrides_an_ancestor() {
    let msg = "root".bold().with("child".no_bold().with("grandchild")).with("sibling");
    let spans = msg.styled_spans();
    assert_eq!(
        vec![
            ("root".to_owned(), MessageStyle::new().bold()),
            ("child".to_owned(), MessageStyle::new().no_bold()),
            ("grandchild".to_owned(), MessageStyle::new().no_bold()),
            ("sibling".to_owned(), MessageStyle::new().bold()),
        ],
        spans,
    );
}

#[test]
fn resolved_style_merges_the_whole_chain() {
    let msg = "a".color(Color32::RED).underline().with(
        "b".italic().with("c".color(Color32::BLUE).no_underline().with("d".strikethrough())),
    );
    let spans = msg.styled_spans();
    let a = MessageStyle::new().color(Color32::RED).underline();
    let b = a.merged_from(MessageStyle::new().italic());
    let c = b.merged_from(MessageStyle::new().color(Color32::BLUE).no_underline());
    let d = c.merged_from(MessageStyle::new().strikethrough());
    assert_eq!(
        vec![("a".to_owned(), a), ("b".to_owned(), b), ("c".to_owned(), c), ("d".to_owned(), d)],
        spans,
    );
    assert_eq!(
        MessageStyle {
            color: Some(Color32::BLUE),
            bold: StyleState::Inherit,
            italic: StyleState::On,
            underline: StyleState::Off,
            strikethrough: StyleState::On,
        },
        d,
    );
}

#[test]
fn stack_flattener_collects_content_in_order() {
    let msg = "Unstyled "
        .with("red ".color(Color32::RED))
        .with("blue ".color(Color32::BLUE))
        .with("italic ".italic())
        .with("final");

    let mut flattener = StackFlattener::new();
    msg.flatten(&mut flattener);
    let all_content: Vec<String> =
        flattener.spans().iter().map(|(content, _)| content.clone()).collect();
    assert_eq!(vec!["Unstyled ", "red ", "blue ", "italic ", "final"], all_content);
    assert_eq!(0, flattener.depth());
    assert_eq!(msg.styled_spans(), flattener.into_spans());
}

#[test]
fn stack_flattener_follows_its_state_machine() {
    let mut flattener = StackFlattener::new();
    assert_eq!(0, flattener.depth());
    assert_eq!(MessageStyle::new(), flattener.current_style());
    assert!(flattener.spans().is_empty());

    flattener.content("outside");
    flattener.push_style(MessageStyle::new().color(Color32::RED).bold());
    assert_eq!(1, flattener.depth());
    assert_eq!(MessageStyle::new().color(Color32::RED).bold(), flattener.current_style());

    flattener.push_style(MessageStyle::new().no_bold().italic());
    assert_eq!(2, flattener.depth());
    let inner = MessageStyle::new().color(Color32::RED).no_bold().italic();
    assert_eq!(inner, flattener.current_style());
    flattener.content("inner");
    flattener.content("");

    flattener.pop_style(MessageStyle::new());
    assert_eq!(1, flattener.depth());
    assert_eq!(MessageStyle::new().color(Color32::RED).bold(), flattener.current_style());
    flattener.content("outer");

    flattener.pop_style(MessageStyle::new());
    assert_eq!(0, flattener.depth());
    assert_eq!(MessageStyle::new(), flattener.current_style());

    assert_eq!(
        vec![
            ("outside".to_owned(), MessageStyle::new()),
            ("inner".to_owned(), inner),
            (String::new(), inner),
            ("outer".to_owned(), MessageStyle::new().color(Color32::RED).bold()),
        ],
        flattener.into_spans(),
    );
}

#[test]
fn stack_flattener_pop_on_an_empty_stack_does_nothing() {
    let mut flattener = StackFlattener::new();
    flattener.pop_style(MessageStyle::new().bold());
    assert_eq!(0, flattener.depth());
    assert_eq!(MessageStyle::new(), flattener.current_style());
    flattener.content("x");
    assert_eq!(vec![("x".to_owned(), MessageStyle::new())], flattener.into_spans());
}

#[test]
fn stack_flattener_returns_to_where_it_started() {
    for msg in samples() {
        let mut flattener = StackFlattener::new();
        flattener.push_style(MessageStyle::new().underline());
        flattener.content("before");
        msg.flatten(&mut flattener);
        assert_eq!(1, flattener.depth());
        assert_eq!(MessageStyle::new().underline(), flattener.current_style());
        let inside: Vec<(String, MessageStyle)> = msg
            .styled_spans()
            .into_iter()
            .map(|(content, style)| (content, MessageStyle::new().underline().merged_from(style)))
            .collect();
        assert_eq!(inside.as_slice(), &flattener.spans()[1..]);
        assert_eq!(node_count(&msg) + 1, flattener.spans().len());
    }
}
