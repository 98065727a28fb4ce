use vkopt_message_parser::filter::{DateStamp, Filter, UnparsableDate};
use vkopt_message_parser::reader::{fold_tokens, EventResult, MessageEvent, Tag, TextToken, Token};
use vkopt_message_parser::writers::{TextOutput, TextWriter};

fn tag(name: &str, attrs: &str) -> Tag {
    Tag { name: name.as_bytes().to_vec(), attrs: attrs.as_bytes().to_vec(), alt: None, href: None }
}

fn text(s: &str) -> Token {
    Token::Text(TextToken { escaped: s.to_string(), unescaped: s.to_string() })
}

fn message(full: &str, handle: &str, date: &str, body: &str) -> Vec<Token> {
    vec![
        Token::Start(tag("div", r#"class="msg_item""#)),
        Token::Start(tag("b", "")),
        text(full),
        Token::End(b"b".to_vec()),
        Token::Start(tag("a", "")),
        text(&format!("@{}", handle)),
        Token::End(b"a".to_vec()),
        text(date),
        Token::Start(tag("div", r#"class="msg_body""#)),
        text(body),
        Token::End(b"div".to_vec()),
        Token::End(b"div".to_vec()),
    ]
}

fn document() -> Vec<Token> {
    let mut v = vec![Token::Start(tag("hr", ""))];
    v.extend(message("Alice", "alice", "2018.01.21 13:53:59", "hello from alice"));
    v.extend(message("Bob", "bob", "2018.01.22 10:03:04", "hello from bob"));
    v.extend(message("Alice", "alice", "2018.01.22 10:05:13", "again"));
    v.push(Token::Eof);
    v
}

fn read_events_filtered(filter: &Filter) -> Vec<String> {
    fold_tokens(&document(), Vec::new(), |mut v: Vec<String>, e: MessageEvent| {
        v.push(format!("{:?}", e));
        match filter.filter_event(e) {
            Some(_) => EventResult::Consumed(v),
            None => EventResult::SkipMessage(v),
        }
    })
    .unwrap()
}

fn strings(v: &[&str]) -> Vec<String> {
    v.iter().map(|s| s.to_string()).collect()
}

fn stamp(year: i32, month: u32, day: u32, hour: u32, minute: u32, second: u32) -> DateStamp {
    DateStamp { year, month, day, hour, minute, second, nanosecond: 0 }
}

#[test]
fn it_does_not_filter_by_default() {
    let unfiltered = fold_tokens(&document(), Vec::new(), |mut v: Vec<String>, e: MessageEvent| {
        v.push(format!("{:?}", e));
        EventResult::Consumed(v)
    })
    .unwrap();
    assert_eq!(read_events_filtered(&Filter::default()), unfiltered);
    assert_eq!(unfiltered.len(), 15);
}

#[test]
fn it_filters_by_short_name_deny_list() {
    let filter = Filter { short_name_blacklist: Some(vec!["alice".to_string()]), ..Default::default() };
    assert_eq!(
        read_events_filtered(&filter),
        strings(&[
            "Start(0)",
            "FullNameExtracted(\"Alice\")",
            "ShortNameExtracted(\"alice\")",
            "Start(0)",
            "FullNameExtracted(\"Bob\")",
            "ShortNameExtracted(\"bob\")",
            "DateExtracted(\"2018.01.22 10:03:04\")",
            "BodyPartExtracted(\"hello from bob\")",
            "Start(0)",
            "FullNameExtracted(\"Alice\")",
            "ShortNameExtracted(\"alice\")",
        ])
    );
}

#[test]
fn it_filters_by_short_name_allow_list() {
    let filter = Filter {
        short_name_whitelist: Some(vec!["bob".to_string()]),
        short_name_blacklist: Some(vec!["bob".to_string()]),
        ..Default::default()
    };
    let events = read_events_filtered(&filter);
    assert_eq!(events.len(), 11);
    assert_eq!(events[7], "BodyPartExtracted(\"hello from bob\")");
}

#[test]
fn it_filters_by_since_date() {
    let filter = Filter { since_date: Some(stamp(2018, 1, 22, 0, 0, 0)), ..Default::default() };
    let events = read_events_filtered(&filter);
    assert_eq!(
        events,
        strings(&[
            "Start(0)",
            "FullNameExtracted(\"Alice\")",
            "ShortNameExtracted(\"alice\")",
            "DateExtracted(\"2018.01.21 13:53:59\")",
            "Start(0)",
            "FullNameExtracted(\"Bob\")",
            "ShortNameExtracted(\"bob\")",
            "DateExtracted(\"2018.01.22 10:03:04\")",
            "BodyPartExtracted(\"hello from bob\")",
            "Start(0)",
            "FullNameExtracted(\"Alice\")",
            "ShortNameExtracted(\"alice\")",
            "DateExtracted(\"2018.01.22 10:05:13\")",
            "BodyPartExtracted(\"again\")",
        ])
    );
}

#[test]
fn it_keeps_a_date_equal_to_the_threshold() {
    let filter = Filter { since_date: Some(stamp(2018, 1, 22, 10, 3, 4)), ..Default::default() };
    let kept = filter.filter_event(MessageEvent::DateExtracted("2018.01.22 10:03:04".to_string()));
    assert!(kept.is_some());
    let dropped = filter.filter_event(MessageEvent::DateExtracted("2018.01.22 10:03:03".to_string()));
    assert!(dropped.is_none());
}

#[test]
fn it_reports_an_unparsable_date_under_a_threshold() {
    let filter = Filter { since_date: Some(stamp(2018, 1, 22, 0, 0, 0)), ..Default::default() };
    let unparsable = filter.screen_event(MessageEvent::DateExtracted("yesterday".to_string()));
    assert_eq!(unparsable.map(|e| e.is_some()), Err(UnparsableDate));
    let kept = filter.screen_event(MessageEvent::DateExtracted("2018.01.23 00:00:00".to_string()));
    assert_eq!(kept.map(|e| e.is_some()), Ok(true));
    let no_threshold = Filter::default().screen_event(MessageEvent::DateExtracted("yesterday".to_string()));
    assert_eq!(no_threshold.map(|e| e.is_some()), Ok(true));
}

#[test]
fn it_skips_a_message_with_unparsable_date_in_text_output() {
    let filter = Filter { since_date: Some(stamp(2000, 1, 1, 0, 0, 0)), ..Default::default() };
    let writer = TextWriter { delimiter: "|".to_string() };
    let mut doc = vec![Token::Start(tag("hr", ""))];
    doc.extend(message("Alice", "alice", "someday", "lost"));
    doc.extend(message("Bob", "bob", "2018.01.22 10:03:04", "kept"));
    doc.push(Token::Eof);
    let out = fold_tokens(&doc, TextOutput::new(), |acc, e| writer.absorb(&filter, acc, e)).unwrap();
    assert_eq!(writer.finish(out), "kept|");
}

#[test]
fn it_writes_kept_bodies_with_delimiters() {
    let filter = Filter { short_name_blacklist: Some(vec!["bob".to_string()]), ..Default::default() };
    let writer = TextWriter { delimiter: "\n--\n".to_string() };
    let out = fold_tokens(&document(), TextOutput::new(), |acc, e| writer.absorb(&filter, acc, e)).unwrap();
    assert_eq!(writer.finish(out), "hello from alice\n--\nagain\n--\n");
}

#[test]
fn it_writes_nothing_for_no_messages() {
    let writer = TextWriter { delimiter: "|".to_string() };
    let filter = Filter::default();
    let out = fold_tokens(&[Token::Eof], TextOutput::new(), |acc, e| writer.absorb(&filter, acc, e)).unwrap();
    assert_eq!(writer.finish(out), "");
}
