use chatvault::datetime::{Date, DateTime};
use chatvault::parser::{
    assemble_message, clean_date_text, collect_raw_messages, header_from_captures,
    normalize_date_text, MessageParser, ParsedMessage, RawMessage,
};

fn at(year: i32, month: u32, day: u32, hour: u32, minute: u32, second: u32) -> DateTime {
    DateTime { date: Date { year, month, day }, hour, minute, second, nanosecond: 0 }
}

fn parse(text: &str) -> Vec<ParsedMessage> {
    MessageParser::new(None).unwrap().parse_messages(text)
}

#[test]
fn parses_two_messages_with_a_continuation_line() {
    let text = "31.12.2023, 23:59 - Alice: Happy new year\nsee you soon\n01.01.2024, 00:01 - Bob: You too";
    let msgs = parse(text);
    assert_eq!(msgs.len(), 2);
    assert_eq!(msgs[0].author, "Alice");
    assert_eq!(msgs[0].author_type, "USER");
    assert_eq!(msgs[0].content, "Happy new year\nsee you soon");
    assert_eq!(msgs[0].created_at, at(2023, 12, 31, 23, 59, 0));
    assert_eq!(msgs[0].attachment_name, None);
    assert_eq!(msgs[1].author, "Bob");
    assert_eq!(msgs[1].content, "You too");
    assert_eq!(msgs[1].created_at, at(2024, 1, 1, 0, 1, 0));
}

#[test]
fn reads_twelve_hour_dates_month_first() {
    let msgs = parse("12/31/2023, 11:59 PM - Alice: Hello");
    assert_eq!(msgs.len(), 1);
    assert_eq!(msgs[0].created_at, at(2023, 12, 31, 23, 59, 0));
    assert_eq!(msgs[0].content, "Hello");
}

#[test]
fn reads_bracketed_dates_with_seconds() {
    let msgs = parse("[31.12.2023, 23:59:10] Bob: Hi there");
    assert_eq!(msgs.len(), 1);
    assert_eq!(msgs[0].author, "Bob");
    assert_eq!(msgs[0].created_at, at(2023, 12, 31, 23, 59, 10));
    assert_eq!(msgs[0].content, "Hi there");
}

#[test]
fn lines_before_the_first_header_are_dropped() {
    let msgs = parse("preamble line\n31.12.2023, 10:00 - Alice: first");
    assert_eq!(msgs.len(), 1);
    assert_eq!(msgs[0].content, "first");
}

#[test]
fn text_without_header_lines_gives_no_messages() {
    assert!(parse("just some text\nand more").is_empty());
    assert!(parse("").is_empty());
}

#[test]
fn a_message_without_author_has_an_empty_author() {
    let msgs = parse("31.12.2023, 10:00 - Messages are end-to-end encrypted.");
    assert_eq!(msgs.len(), 1);
    assert_eq!(msgs[0].author, "");
    assert_eq!(msgs[0].author_type, "USER");
    assert_eq!(msgs[0].content, "Messages are end-to-end encrypted.");
}

#[test]
fn an_empty_body_is_a_system_message() {
    let msgs = parse("31.12.2023, 10:00 - Alice: ");
    assert_eq!(msgs.len(), 1);
    assert_eq!(msgs[0].content, "");
    assert_eq!(msgs[0].author_type, "SYSTEM");
}

#[test]
fn an_attachment_line_names_the_attachment() {
    let msgs = parse("31.12.2023, 10:00 - Alice: IMG-0001.jpg (file attached)\ncaption");
    assert_eq!(msgs.len(), 1);
    assert_eq!(msgs[0].attachment_name, Some("IMG-0001.jpg".to_string()));
    assert_eq!(msgs[0].content, "IMG-0001.jpg (file attached)\ncaption");
}

#[test]
fn trailing_nuls_and_carriage_returns_are_removed() {
    let msgs = parse("31.12.2023, 10:00 - Alice: hi\0\0\r\nsecond line\r\n");
    assert_eq!(msgs.len(), 1);
    assert_eq!(msgs[0].content, "hi\nsecond line");
}

#[test]
fn a_message_with_an_unreadable_date_is_left_out() {
    let msgs = parse("99.99.2023, 10:00 - Alice: lost\n31.12.2023, 10:00 - Bob: kept");
    assert_eq!(msgs.len(), 1);
    assert_eq!(msgs[0].author, "Bob");
}

#[test]
fn a_custom_format_reads_the_cleaned_date() {
    let parser = MessageParser::new(Some("%Y-%m-%d. %H:%M".to_string())).unwrap();
    let msgs = parser.parse_messages("2023-12-31, 08:15 - Alice: custom");
    assert_eq!(msgs.len(), 1);
    assert_eq!(msgs[0].created_at, at(2023, 12, 31, 8, 15, 0));
}

#[test]
fn parse_date_tries_the_builtin_formats_in_order() {
    let parser = MessageParser::new(None).unwrap();
    assert_eq!(parser.parse_date(" [31-12-2023, 23:59:01] "), Some(at(2023, 12, 31, 23, 59, 1)));
    assert_eq!(parser.parse_date("not a date"), None);
}

#[test]
fn date_texts_are_cleaned_and_normalized() {
    assert_eq!(clean_date_text("  [31/12/2023, 23:59]  "), "31/12/2023. 23:59");
    assert_eq!(normalize_date_text("  [31/12/2023, 23:59]  "), "31.12.2023. 23:59");
    assert_eq!(normalize_date_text("12-31-2023"), "12.31.2023");
}

#[test]
fn header_captures_are_trimmed() {
    let caps = Some(vec![
        Some("whole".to_string()),
        Some("31.12.2023, 10:00".to_string()),
        Some("  Alice ".to_string()),
        Some(" body text  ".to_string()),
    ]);
    let h = header_from_captures(caps).unwrap();
    assert_eq!(h.date, "31.12.2023, 10:00");
    assert_eq!(h.author, Some("Alice".to_string()));
    assert_eq!(h.body, "body text");
    let blank_author = header_from_captures(Some(vec![
        Some("w".to_string()),
        Some("d".to_string()),
        Some("   ".to_string()),
        None,
    ]))
    .unwrap();
    assert_eq!(blank_author.author, None);
    assert_eq!(blank_author.body, "");
    assert!(header_from_captures(None).is_none());
}

fn raw(date: &str, author: Option<&str>, body: &str) -> RawMessage {
    RawMessage { date: date.to_string(), author: author.map(|a| a.to_string()), body: body.to_string() }
}

#[test]
fn raw_messages_are_grouped_by_header_lines() {
    let lines = vec![
        "orphan".to_string(),
        "h1".to_string(),
        "more".to_string(),
        "h2".to_string(),
        "".to_string(),
    ];
    let heads = vec![None, Some(raw("d1", Some("A"), "one")), None, Some(raw("d2", None, "two")), None];
    let out = collect_raw_messages(&lines, &heads);
    assert_eq!(out.len(), 2);
    assert_eq!(out[0].date, "d1");
    assert_eq!(out[0].body, "one\nmore");
    assert_eq!(out[1].author, None);
    assert_eq!(out[1].body, "two\n");
}

#[test]
fn assembling_needs_a_date() {
    let r = raw("d", None, "");
    assert!(assemble_message(&r, None, None).is_none());
    let m = assemble_message(&r, Some(at(2020, 1, 2, 3, 4, 5)), Some(vec![Some("x".into()), Some("name".into())]))
        .unwrap();
    assert_eq!(m.author, "");
    assert_eq!(m.author_type, "SYSTEM");
    assert_eq!(m.attachment_name, Some("name".to_string()));
    assert_eq!(m.created_at, at(2020, 1, 2, 3, 4, 5));
}

#[test]
fn law_author_type_follows_content_on_an_export() {
    let msgs = parse("31.12.2023, 10:00 - A: \n31.12.2023, 10:01 - B: text");
    for m in &msgs {
        assert_eq!(m.author_type, if m.content.is_empty() { "SYSTEM" } else { "USER" });
    }
    assert_eq!(msgs.len(), 2);
}

#[test]
fn law_at_most_one_message_per_header_line_on_an_export() {
    let text = "31.12.2023, 10:00 - A: x\n99.99.2023, 10:00 - B: y\nz\n31.12.2023, 10:02 - C: w";
    let msgs = parse(text);
    assert!(msgs.len() <= 3);
    assert_eq!(msgs.len(), 2);
}

#[test]
fn law_one_message_per_readable_header_line_on_an_export() {
    let text = "intro\n31.12.2023, 10:00 - A: x\ncontinued\n31.12.2023, 10:01 - B: y\n12/31/2023, 11:00 PM - C: z";
    assert_eq!(parse(text).len(), 3);
}
