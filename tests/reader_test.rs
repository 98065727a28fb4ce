use vkopt_message_parser::reader::{
    classify_attachment, fold_tokens, rewrite_mentions, split_caption, EventResult,
    MessageAttachmentKind, MessageEvent, ParseError, ParseState, ParseStateHolder, Tag, TextToken,
    Token,
};

fn tag(name: &str, attrs: &str) -> Tag {
    Tag { name: name.as_bytes().to_vec(), attrs: attrs.as_bytes().to_vec(), alt: None, href: None }
}

fn start(name: &str, attrs: &str) -> Token {
    Token::Start(tag(name, attrs))
}

fn text(s: &str) -> Token {
    Token::Text(TextToken { escaped: s.to_string(), unescaped: s.to_string() })
}

fn end(name: &str) -> Token {
    Token::End(name.as_bytes().to_vec())
}

fn br() -> Token {
    Token::Empty(tag("br", ""))
}

fn emoji(alt: &str) -> Token {
    let mut t = tag("img", r#"class="emoji" src="e.png""#);
    t.alt = Some(alt.to_string());
    Token::Start(t)
}

/// The header of a message: container, full name, handle and date.
fn header(full: &str, handle: &str, date: &str) -> Vec<Token> {
    vec![
        start("div", r#"class="msg_item""#),
        start("b", ""),
        text(full),
        end("b"),
        start("a", r#"href="https://vk.com/x""#),
        text(&format!("@{}", handle)),
        end("a"),
        text("\n   "),
        text(&format!("  {}  ", date)),
    ]
}

fn body_message(full: &str, handle: &str, date: &str, body: Vec<Token>) -> Vec<Token> {
    let mut v = header(full, handle, date);
    v.push(start("div", r#"class="msg_body""#));
    v.extend(body);
    v.push(end("div"));
    v.push(end("div"));
    v
}

fn document(parts: Vec<Vec<Token>>) -> Vec<Token> {
    let mut v = vec![start("html", ""), text("preamble"), start("hr", "")];
    for p in parts {
        v.extend(p);
    }
    v.push(Token::Eof);
    v
}

fn read_events_skipping<P: Fn(&MessageEvent) -> bool>(tokens: &[Token], pred: P) -> Result<Vec<String>, ParseError> {
    fold_tokens(tokens, Vec::new(), |mut v: Vec<String>, e: MessageEvent| {
        v.push(format!("{:?}", e));
        if pred(&e) {
            EventResult::Consumed(v)
        } else {
            EventResult::SkipMessage(v)
        }
    })
}

fn read_events(tokens: &[Token]) -> Vec<String> {
    read_events_skipping(tokens, |_| true).unwrap()
}

/// A forwarding message with `body`, followed by the wrapper that holds the
/// forwarded `inner` messages; the wrapper's two closing tags end the block.
fn forwarding(full: &str, handle: &str, date: &str, body: &str, inner: Vec<Vec<Token>>) -> Vec<Token> {
    let mut v = header(full, handle, date);
    v.push(start("div", r#"class="msg_body""#));
    v.push(text(body));
    v.push(end("div"));
    v.push(start("div", r#"class="att_head""#));
    v.push(start("div", r#"class="fwd""#));
    for m in inner {
        v.extend(m);
    }
    v.push(end("div"));
    v.push(end("div"));
    v
}

fn strings(v: &[&str]) -> Vec<String> {
    v.iter().map(|s| s.to_string()).collect()
}

#[test]
fn it_emits_header_events_in_order() {
    let doc = document(vec![body_message("Sota", "sota", "2018.01.21 11:05:13", vec![text("Hi Denko")])]);
    assert_eq!(
        read_events(&doc),
        strings(&[
            "Start(0)",
            "FullNameExtracted(\"Sota\")",
            "ShortNameExtracted(\"sota\")",
            "DateExtracted(\"2018.01.21 11:05:13\")",
            "BodyPartExtracted(\"Hi Denko\")",
        ])
    );
}

#[test]
fn it_ignores_content_before_the_rule() {
    let mut doc = vec![start("div", r#"class="msg_item""#), start("b", ""), text("Ghost"), end("b")];
    doc.extend(document(vec![body_message("Sota", "sota", "2018.01.21 11:05:13", vec![text("x")])]));
    let events = read_events(&doc);
    assert_eq!(events[0], "Start(0)");
    assert_eq!(events[1], "FullNameExtracted(\"Sota\")");
    assert_eq!(events.len(), 5);
}

#[test]
fn it_parses_line_breaks_and_pictographs() {
    let doc = document(vec![
        body_message("Sota", "sota", "2018.01.21 11:05:13", vec![text("Hi Denko"), br(), emoji("🤔")]),
        body_message("Denko", "denko", "2018.01.21 17:02:54", vec![text("ok")]),
    ]);
    let events = read_events(&doc);
    assert_eq!(
        events[4..9].to_vec(),
        strings(&[
            "BodyPartExtracted(\"Hi Denko\")",
            "BodyPartExtracted(\"\\n\")",
            "BodyPartExtracted(\"🤔\")",
            "Start(0)",
            "FullNameExtracted(\"Denko\")",
        ])
    );
}

#[test]
fn it_skips_chat_action_notices() {
    let mut action = header("Sota", "sota", "2018.01.21 13:53:59");
    action.push(start("div", ""));
    action.push(text("Sota invited Denko"));
    action.push(end("div"));
    action.push(end("div"));
    let doc = document(vec![action, body_message("Sota", "sota", "2018.01.21 11:05:13", vec![text("Hi")])]);
    let events = read_events(&doc);
    assert_eq!(
        events[..5].to_vec(),
        strings(&[
            "Start(0)",
            "FullNameExtracted(\"Sota\")",
            "ShortNameExtracted(\"sota\")",
            "DateExtracted(\"2018.01.21 13:53:59\")",
            "Start(0)",
        ])
    );
}

#[test]
fn it_rewrites_mentions_in_bodies() {
    let doc = document(vec![body_message("Sota", "sota", "2018.01.21 11:05:13", vec![text("hey [id42|Denko K], look")])]);
    let events = read_events(&doc);
    assert_eq!(events[4], "BodyPartExtracted(\"hey Denko K, look\")");
}

fn attachment(icon: &str, href: &str, caption: &str) -> Vec<Token> {
    let mut a = tag("a", "");
    a.href = Some(href.to_string());
    vec![
        start("div", r#"class="attacment""#),
        start("div", &format!(r#"class="att_ico {}""#, icon)),
        end("div"),
        Token::Start(a),
        text(caption),
        end("a"),
        end("div"),
    ]
}

#[test]
fn it_parses_attachment_captions() {
    let mut m = header("Sota", "sota", "2018.01.21 13:53:59");
    m.push(start("div", r#"class="attacments""#));
    m.extend(attachment("att_video", "http://vk.com/video00000", " [video_00000] Rick Astley - Never Gonna Give You Up (Video) (3:33) "));
    m.extend(attachment("att_doc", "https://vk.com/doc0_0?hash=aaaaa", "voice_message.webm"));
    m.push(end("div"));
    m.push(end("div"));
    let doc = document(vec![m]);
    let events = read_events(&doc);
    assert_eq!(
        events[4..].to_vec(),
        strings(&[
            "AttachmentExtracted { kind: Video, url: \"http://vk.com/video00000\", vk_obj: \"video_00000\", description: \"Rick Astley - Never Gonna Give You Up (Video) (3:33)\" }",
            "AttachmentExtracted { kind: Doc, url: \"https://vk.com/doc0_0?hash=aaaaa\", vk_obj: \"\", description: \"voice_message.webm\" }",
        ])
    );
}

#[test]
fn it_fails_on_unknown_attachment_kind() {
    let mut m = header("Sota", "sota", "2018.01.21 13:53:59");
    m.push(start("div", r#"class="attacments""#));
    m.extend(attachment("att_zzzz", "u", "c"));
    let doc = document(vec![m]);
    assert_eq!(read_events_skipping(&doc, |_| true), Err(ParseError::UnsupportedAttachment));
}

#[test]
fn it_fails_on_empty_handle() {
    let mut doc = document(vec![]);
    doc.pop();
    doc.extend(vec![start("div", r#"class="msg_item""#), start("b", ""), text("Sota"), end("b"), start("a", ""), text(""), Token::Eof]);
    assert_eq!(read_events_skipping(&doc, |_| true), Err(ParseError::EmptyHandle));
}

#[test]
fn it_stops_at_end_of_stream() {
    let mut doc = document(vec![body_message("Sota", "sota", "2018.01.21 11:05:13", vec![text("a")])]);
    doc.extend(body_message("Denko", "denko", "2018.01.21 11:05:14", vec![text("b")]));
    assert_eq!(read_events(&doc).len(), 5);
}

fn nested_chain() -> Vec<Token> {
    let level3 = body_message("Denko", "denko", "2018.01.21 20:48:07", vec![text("three")]);
    let level2 = forwarding("Sota", "sota", "2018.01.21 20:48:19", "two", vec![level3]);
    let level1 = forwarding("Sota", "sota", "2019.01.02 07:02:58", "one", vec![level2]);
    let sibling1 = body_message("Denko", "denko", "2019.01.02 07:03:06", vec![text("one again")]);
    let level0 = forwarding("Denko", "denko", "2019.01.02 07:03:18", "zero", vec![level1, sibling1]);
    let next0 = body_message("Sota", "sota", "2019.01.02 08:00:00", vec![text("zero again")]);
    document(vec![level0, next0])
}

#[test]
fn it_parses_forwarded_messages_with_nesting_levels() {
    let events = read_events(&nested_chain());
    let starts: Vec<String> = events.iter().filter(|e| e.starts_with("Start")).cloned().collect();
    assert_eq!(starts, strings(&["Start(0)", "Start(1)", "Start(2)", "Start(3)", "Start(1)", "Start(0)"]));
    assert_eq!(events.len(), 30);
    assert_eq!(events[19], "BodyPartExtracted(\"three\")");
}

#[test]
fn it_skips_forwarded_chain_at_level_one() {
    let events = read_events_skipping(&nested_chain(), |e| !matches!(e, MessageEvent::Start(1))).unwrap();
    assert_eq!(
        events,
        strings(&[
            "Start(0)",
            "FullNameExtracted(\"Denko\")",
            "ShortNameExtracted(\"denko\")",
            "DateExtracted(\"2019.01.02 07:03:18\")",
            "BodyPartExtracted(\"zero\")",
            "Start(1)",
            "Start(1)",
            "Start(0)",
            "FullNameExtracted(\"Sota\")",
            "ShortNameExtracted(\"sota\")",
            "DateExtracted(\"2019.01.02 08:00:00\")",
            "BodyPartExtracted(\"zero again\")",
        ])
    );
}

#[test]
fn it_resumes_after_skip_for_a_sibling_at_the_same_level() {
    let events = read_events_skipping(&nested_chain(), |e| match e {
        MessageEvent::DateExtracted(d) => d != "2019.01.02 07:02:58",
        _ => true,
    })
    .unwrap();
    assert_eq!(
        events[5..].to_vec(),
        strings(&[
            "Start(1)",
            "FullNameExtracted(\"Sota\")",
            "ShortNameExtracted(\"sota\")",
            "DateExtracted(\"2019.01.02 07:02:58\")",
            "Start(1)",
            "FullNameExtracted(\"Denko\")",
            "ShortNameExtracted(\"denko\")",
            "DateExtracted(\"2019.01.02 07:03:06\")",
            "BodyPartExtracted(\"one again\")",
            "Start(0)",
            "FullNameExtracted(\"Sota\")",
            "ShortNameExtracted(\"sota\")",
            "DateExtracted(\"2019.01.02 08:00:00\")",
            "BodyPartExtracted(\"zero again\")",
        ])
    );
}

#[test]
fn it_classifies_attachment_suffixes() {
    let cases = [
        ("att_doc", MessageAttachmentKind::Doc),
        ("att_audio", MessageAttachmentKind::Audio),
        ("att_video", MessageAttachmentKind::Video),
        ("att_photo", MessageAttachmentKind::Photo),
        ("att_sticker", MessageAttachmentKind::Sticker),
        ("att_geo", MessageAttachmentKind::Location),
        ("att_wall", MessageAttachmentKind::Wall),
    ];
    for (icon, kind) in cases.iter() {
        let attrs = format!(r#"class="att_ico {}""#, icon);
        assert_eq!(classify_attachment(attrs.as_bytes()), Ok(*kind));
    }
    assert_eq!(classify_attachment(br#"class="att_ico att_link""#), Err(ParseError::UnsupportedAttachment));
    assert_eq!(classify_attachment(b"doc\""), Err(ParseError::UnsupportedAttachment));
}

#[test]
fn it_rewrites_mentions() {
    assert_eq!(rewrite_mentions("[id123|Display Name]"), "Display Name");
    assert_eq!(rewrite_mentions("[not a mention]"), "[not a mention]");
    assert_eq!(rewrite_mentions("[idx|Name]"), "[idx|Name]");
    assert_eq!(rewrite_mentions("plain text"), "plain text");
    assert_eq!(rewrite_mentions(&rewrite_mentions("plain text")), "plain text");
    assert_eq!(rewrite_mentions("[id1|A] and [id22|B C]!"), "A and B C!");
    assert_eq!(rewrite_mentions(""), "");
}

#[test]
fn it_splits_captions() {
    assert_eq!(split_caption("[photo0_0] (640x800)"), ("photo0_0".to_string(), "(640x800)".to_string()));
    assert_eq!(split_caption("voice_message.webm"), (String::new(), "voice_message.webm".to_string()));
    assert_eq!(split_caption("[open"), ("open".to_string(), String::new()));
    assert_eq!(split_caption("[]"), (String::new(), String::new()));
    assert_eq!(split_caption(""), (String::new(), String::new()));
}

#[test]
fn it_advances_the_state_holder() {
    let mut h = ParseStateHolder::new();
    assert_eq!(h.at, ParseState::Prelude);
    h.advance(ParseState::NoMessage);
    assert_eq!(h.at, ParseState::NoMessage);
    assert_eq!(h.msg_level, 0);
    assert_eq!(h.skip_level, None);
}

#[test]
fn it_keeps_skip_across_tokens_of_the_skipped_message() {
    let mut h = ParseStateHolder::new();
    let doc = document(vec![body_message("Sota", "sota", "2018.01.21 11:05:13", vec![text("Hi")])]);
    let mut delivered = Vec::new();
    let reducer = |v: Vec<String>, e: MessageEvent| {
        let skip = matches!(e, MessageEvent::ShortNameExtracted(_));
        let mut v = v;
        v.push(format!("{:?}", e));
        if skip { EventResult::SkipMessage(v) } else { EventResult::Consumed(v) }
    };
    for t in doc.iter() {
        if let Some(e) = h.on_token(t).unwrap() {
            delivered = h.deliver(delivered, e, &reducer);
        }
    }
    assert_eq!(delivered, strings(&["Start(0)", "FullNameExtracted(\"Sota\")", "ShortNameExtracted(\"sota\")"]));
    assert_eq!(h.skip_level, Some(0));
}

#[test]
fn it_fails_on_attachment_link_without_href() {
    let mut m = header("Sota", "sota", "2018.01.21 13:53:59");
    m.push(start("div", r#"class="attacments""#));
    m.push(start("div", r#"class="attacment""#));
    m.push(start("div", r#"class="att_ico att_photo""#));
    m.push(end("div"));
    m.push(start("a", r#"class="link""#));
    m.push(text("[photo1] (400x400)"));
    let doc = document(vec![m]);
    assert_eq!(read_events_skipping(&doc, |_| true), Err(ParseError::MissingAttribute));
}

#[test]
fn it_fails_on_pictograph_without_alt() {
    let doc = document(vec![body_message(
        "Sota",
        "sota",
        "2018.01.21 11:05:13",
        vec![text("Hi"), start("img", r#"class="emoji" src="e.png""#)],
    )]);
    assert_eq!(read_events_skipping(&doc, |_| true), Err(ParseError::MissingAttribute));
}

#[test]
fn it_trims_unicode_white_space_in_captions() {
    let mut m = header("Sota", "sota", "2018.01.21 13:53:59");
    m.push(start("div", r#"class="attacments""#));
    m.extend(attachment("att_photo", "https://userapi.com/0.jpg", "\u{a0}\t[photo0_0]\u{3000} (640x800)\u{2009}"));
    let doc = document(vec![m]);
    let events = read_events(&doc);
    assert_eq!(
        events[4],
        "AttachmentExtracted { kind: Photo, url: \"https://userapi.com/0.jpg\", vk_obj: \"photo0_0\", description: \"(640x800)\" }"
    );
}
