//! The WhatsApp chat-export parser: header lines open messages, other lines
//! continue the open message's body.
use vstd::prelude::*;
use crate::datetime::{parse_date_time, parsed_date_time, DateTime};
use crate::pattern::{captures, captures_view, compile_pattern, regex_captures, Pattern};
use crate::text::{
    chars_of, lines_of, replace_chars, replace_set, split_lines, string_of, string_of_range,
    trim_bounds, trim_chars, trim_end_set, trim_set, trim_whitespace, trim_ws,
};

verus! {

broadcast use vstd::string::group_string_axioms;

/// The pattern of a message header line: date and time, an optional author
/// ending in `": "`, then the first line of the body.
pub const LINE_PATTERN: &'static str = r#"^\u{200e}?\[?(\d{1,4}[-/.]\d{1,4}[-/.]\d{1,4}[,.]? \d{1,2}:\d{2}(?::\d{2})?\s?(?:[aApP][mM])?)\]?(?: - |: |\s+)(?:(.*?): )?(.*)$"#;

/// The pattern of an attachment line: a file name followed by a note in
/// parentheses.
pub const ATTACHMENT_PATTERN: &'static str = r#"^(.*?)\s+\((.*?)\)$"#;

/// A message read from a chat export.
pub struct ParsedMessage {
    pub author: String,
    pub author_type: String,
    pub created_at: DateTime,
    pub content: String,
    pub attachment_name: Option<String>,
}

/// A parsed message as mathematical values.
pub ghost struct MessageView {
    pub author: Seq<char>,
    pub author_type: Seq<char>,
    pub created_at: DateTime,
    pub content: Seq<char>,
    pub attachment_name: Option<Seq<char>>,
}

/// The text of an optional string.
pub open spec fn opt_view(o: Option<String>) -> Option<Seq<char>> {
    match o {
        Some(s) => Some(s@),
        None => None,
    }
}

impl View for ParsedMessage {
    type V = MessageView;

    open spec fn view(&self) -> MessageView {
        MessageView {
            author: self.author@,
            author_type: self.author_type@,
            created_at: self.created_at,
            content: self.content@,
            attachment_name: opt_view(self.attachment_name),
        }
    }
}

/// A message as it is gathered from the export, before its date is read:
/// the date text of its header line, the author, and the body.
pub struct RawMessage {
    pub date: String,
    pub author: Option<String>,
    pub body: String,
}

/// A gathered message as mathematical values.
pub ghost struct RawView {
    pub date: Seq<char>,
    pub author: Option<Seq<char>>,
    pub body: Seq<char>,
}

impl View for RawMessage {
    type V = RawView;

    open spec fn view(&self) -> RawView {
        RawView { date: self.date@, author: opt_view(self.author), body: self.body@ }
    }
}

pub open spec fn raw_views(v: Seq<RawMessage>) -> Seq<RawView> {
    Seq::new(v.len(), |i: int| v[i]@)
}

pub open spec fn header_views(v: Seq<Option<RawMessage>>) -> Seq<Option<RawView>> {
    Seq::new(v.len(), |i: int| match v[i] {
        Some(r) => Some(r@),
        None => None,
    })
}

pub open spec fn string_views(v: Seq<String>) -> Seq<Seq<char>> {
    Seq::new(v.len(), |i: int| v[i]@)
}

pub open spec fn message_views(v: Seq<ParsedMessage>) -> Seq<MessageView> {
    Seq::new(v.len(), |i: int| v[i]@)
}

/// Capture group `i`, if it exists and took part in the match.
pub open spec fn group_text(g: Seq<Option<Seq<char>>>, i: int) -> Option<Seq<char>> {
    if 0 <= i < g.len() {
        g[i]
    } else {
        None
    }
}

/// The message that a header line opens, read from its captures: the date
/// text as captured, the author trimmed (none when empty), and the body text
/// trimmed.
pub open spec fn header_of(caps: Option<Seq<Option<Seq<char>>>>) -> Option<RawView> {
    match caps {
        None => None,
        Some(g) => Some(
            RawView {
                date: match group_text(g, 1) {
                    Some(t) => t,
                    None => Seq::empty(),
                },
                author: match group_text(g, 2) {
                    Some(t) => if trim_ws(t).len() > 0 {
                        Some(trim_ws(t))
                    } else {
                        None
                    },
                    None => None,
                },
                body: match group_text(g, 3) {
                    Some(t) => trim_ws(t),
                    None => Seq::empty(),
                },
            },
        ),
    }
}

/// `r` with `line` added to its body on a new line.
pub open spec fn continued(r: RawView, line: Seq<char>) -> RawView {
    RawView { date: r.date, author: r.author, body: r.body.push('\n') + line }
}

/// The messages finished after the first `n` lines, and the message still
/// open: a header line finishes the open message and opens its own; any
/// other line continues the open message, or is dropped when none is open.
pub open spec fn group_upto(lines: Seq<Seq<char>>, heads: Seq<Option<RawView>>, n: nat) -> (
    Seq<RawView>,
    Option<RawView>,
)
    decreases n,
{
    if n == 0 {
        (Seq::empty(), None)
    } else {
        let (done, cur) = group_upto(lines, heads, (n - 1) as nat);
        match heads[n - 1] {
            Some(h) => (
                match cur {
                    Some(c) => done.push(c),
                    None => done,
                },
                Some(h),
            ),
            None => (
                done,
                match cur {
                    Some(c) => Some(continued(c, lines[n - 1])),
                    None => None,
                },
            ),
        }
    }
}

/// All messages gathered from `lines`, where `heads[i]` is the message that
/// line `i` opens, if it is a header line.
pub open spec fn grouped(lines: Seq<Seq<char>>, heads: Seq<Option<RawView>>) -> Seq<RawView> {
    let (done, cur) = group_upto(lines, heads, lines.len());
    match cur {
        Some(c) => done.push(c),
        None => done,
    }
}

/// The first line of a body (empty for an empty body).
pub open spec fn first_line(body: Seq<char>) -> Seq<char> {
    if lines_of(body).len() > 0 {
        lines_of(body)[0]
    } else {
        Seq::empty()
    }
}

/// The message built from a gathered one, given the date read from its
/// header and the attachment captures of its first line: none without a
/// date; the author defaults to empty; "SYSTEM" for an empty body, else
/// "USER"; the attachment name is capture group 1.
pub open spec fn assembled(
    raw: RawView,
    created: Option<DateTime>,
    attachment: Option<Seq<Option<Seq<char>>>>,
) -> Option<MessageView> {
    match created {
        None => None,
        Some(t) => Some(
            MessageView {
                author: match raw.author {
                    Some(a) => a,
                    None => Seq::empty(),
                },
                author_type: if raw.body.len() == 0 {
                    "SYSTEM"@
                } else {
                    "USER"@
                },
                created_at: t,
                content: raw.body,
                attachment_name: match attachment {
                    Some(g) => group_text(g, 1),
                    None => None,
                },
            },
        ),
    }
}

/// `[` and `]`.
pub open spec fn brackets() -> Seq<char> {
    seq!['[', ']']
}

/// A date text trimmed of white space and of brackets, with `,` made `.`.
pub open spec fn cleaned_date(text: Seq<char>) -> Seq<char> {
    replace_set(trim_set(trim_ws(text), brackets()), seq![','], '.')
}

/// A cleaned date text with `-`, `/` and `,` made `.`.
pub open spec fn normalized_date(text: Seq<char>) -> Seq<char> {
    replace_set(cleaned_date(text), seq!['-', '/', ','], '.')
}

/// The date formats tried in turn when no format is configured.
pub open spec fn date_formats() -> Seq<Seq<char>> {
    seq![
        "%d.%m.%Y. %H:%M:%S"@,
        "%d.%m.%Y. %H:%M"@,
        "%d.%m.%y. %H:%M:%S"@,
        "%d.%m.%y. %H:%M"@,
        "%m.%d.%Y. %H:%M:%S"@,
        "%m.%d.%Y. %H:%M"@,
        "%m.%d.%y. %H:%M:%S"@,
        "%m.%d.%y. %H:%M"@,
        "%d.%m.%Y. %I:%M %p"@,
        "%m.%d.%Y. %I:%M %p"@,
    ]
}

/// The first of `formats` that reads `text`, and what it reads.
pub open spec fn first_parse(text: Seq<char>, formats: Seq<Seq<char>>) -> Option<DateTime>
    decreases formats.len(),
{
    if formats.len() == 0 {
        None
    } else {
        match parsed_date_time(text, formats[0]) {
            Some(t) => Some(t),
            None => first_parse(text, formats.drop_first()),
        }
    }
}

/// The date of a header: read with the configured format from the cleaned
/// text, or else with the first of `date_formats` that reads the normalized
/// text.
pub open spec fn header_date(custom: Option<Seq<char>>, text: Seq<char>) -> Option<DateTime> {
    match custom {
        Some(f) => parsed_date_time(cleaned_date(text), f),
        None => first_parse(normalized_date(text), date_formats()),
    }
}

/// The NUL character.
pub open spec fn nul() -> Seq<char> {
    seq!['\0']
}

/// The lines of an export, trailing NULs removed.
pub open spec fn cleaned_lines(text: Seq<char>) -> Seq<Seq<char>> {
    Seq::new(lines_of(text).len(), |i: int| trim_end_set(lines_of(text)[i], nul()))
}

/// The message each line opens, if it is a header line.
pub open spec fn line_headers(line_pattern: Seq<char>, lines: Seq<Seq<char>>) -> Seq<Option<RawView>> {
    Seq::new(lines.len(), |i: int| header_of(regex_captures(line_pattern, lines[i])))
}

/// The message built from a gathered one.
pub open spec fn build_one(
    custom: Option<Seq<char>>,
    attachment_pattern: Seq<char>,
    r: RawView,
) -> Option<MessageView> {
    assembled(
        r,
        header_date(custom, r.date),
        regex_captures(attachment_pattern, first_line(r.body)),
    )
}

/// The messages built from the gathered ones, in order; a message whose date
/// cannot be read is left out.
pub open spec fn build_all(
    custom: Option<Seq<char>>,
    attachment_pattern: Seq<char>,
    raws: Seq<RawView>,
) -> Seq<MessageView>
    decreases raws.len(),
{
    if raws.len() == 0 {
        Seq::empty()
    } else {
        let rest = build_all(custom, attachment_pattern, raws.drop_last());
        match build_one(custom, attachment_pattern, raws.last()) {
            Some(m) => rest.push(m),
            None => rest,
        }
    }
}

/// The messages of a chat export.
pub open spec fn parsed_messages(
    custom: Option<Seq<char>>,
    line_pattern: Seq<char>,
    attachment_pattern: Seq<char>,
    text: Seq<char>,
) -> Seq<MessageView> {
    let lines = cleaned_lines(text);
    build_all(custom, attachment_pattern, grouped(lines, line_headers(line_pattern, lines)))
}

/// Why a parser could not be made.
#[derive(Debug, PartialEq, Eq)]
pub enum ParserError {
    /// One of the parser's patterns did not compile.
    InvalidPattern,
}

/// A parser of WhatsApp chat exports, with an optional date format.
pub struct MessageParser {
    custom_format: Option<String>,
    line_re: Pattern,
    attachment_re: Pattern,
}

fn copy_opt_string(o: &Option<String>) -> (res: Option<String>)
    ensures
        opt_view(res) == opt_view(*o),
{
    match o {
        Some(s) => Some(s.clone()),
        None => None,
    }
}

fn copy_raw(r: &RawMessage) -> (res: RawMessage)
    ensures
        res@ == r@,
{
    RawMessage { date: r.date.clone(), author: copy_opt_string(&r.author), body: r.body.clone() }
}

fn group_at(g: &Vec<Option<String>>, i: usize) -> (res: Option<String>)
    ensures
        opt_view(res) == group_text(crate::pattern::groups_view(g@), i as int),
{
    if i < g.len() {
        copy_opt_string(&g[i])
    } else {
        None
    }
}

fn trimmed_string(s: &String) -> (res: String)
    ensures
        res@ == trim_ws(s@),
{
    let c = chars_of(s.as_str());
    let t = trim_whitespace(&c);
    string_of(&t)
}

/// The message that a header line opens, read from the line's captures:
/// group 1 is the date text, group 2 the author (trimmed, dropped when
/// empty), group 3 the first body line (trimmed).
pub fn header_from_captures(caps: Option<Vec<Option<String>>>) -> (res: Option<RawMessage>)
    ensures
        (match res {
            Some(r) => Some(r@),
            None => None,
        }) == header_of(captures_view(caps)),
{
    match caps {
        None => None,
        Some(g) => {
            let date = match group_at(&g, 1) {
                Some(t) => t,
                None => String::new(),
            };
            let author = match group_at(&g, 2) {
                Some(t) => {
                    let a = trimmed_string(&t);
                    if !a.as_str().is_empty() {
                        Some(a)
                    } else {
                        None
                    }
                },
                None => None,
            };
            let body = match group_at(&g, 3) {
                Some(t) => trimmed_string(&t),
                None => String::new(),
            };
            let r = RawMessage { date, author, body };
            assert(r@ == header_of(captures_view(Some(g))).unwrap());
            Some(r)
        },
    }
}

/// Gathers the messages of an export from its lines and the message each
/// line opens (`None` for a line that is no header line): a header line
/// finishes the open message and opens its own, any other line is added to
/// the open message's body after a line break, and lines before the first
/// header line are dropped.
pub fn collect_raw_messages(lines: &Vec<String>, heads: &Vec<Option<RawMessage>>) -> (res: Vec<RawMessage>)
    requires
        lines@.len() == heads@.len(),
    ensures
        raw_views(res@) == grouped(string_views(lines@), header_views(heads@)),
{
    let ghost ls = string_views(lines@);
    let ghost hs = header_views(heads@);
    let mut done: Vec<RawMessage> = Vec::new();
    let mut cur: Option<RawMessage> = None;
    let mut i: usize = 0;
    while i < lines.len()
        invariant
            lines@.len() == heads@.len(),
            ls == string_views(lines@),
            hs == header_views(heads@),
            i <= lines@.len(),
            raw_views(done@) == group_upto(ls, hs, i as nat).0,
            (match cur {
                Some(c) => Some(c@),
                None => None,
            }) == group_upto(ls, hs, i as nat).1,
        decreases lines@.len() - i,
    {
        match &heads[i] {
            Some(h) => {
                let opened = copy_raw(h);
                let finished = cur;
                match finished {
                    Some(c) => {
                        let ghost before = done@;
                        done.push(c);
                        assert(raw_views(done@) =~= raw_views(before).push(c@));
                    },
                    None => {},
                }
                cur = Some(opened);
            },
            None => {
                let open = cur;
                cur = match open {
                    Some(mut c) => {
                        let ghost b = c.body@;
                        crate::text::push_char(&mut c.body, '\n');
                        c.body.append(lines[i].as_str());
                        assert(c.body@ == b.push('\n') + ls[i as int]);
                        Some(c)
                    },
                    None => None,
                };
            },
        }
        i = i + 1;
    }
    match cur {
        Some(c) => {
            let ghost before = done@;
            done.push(c);
            assert(raw_views(done@) =~= raw_views(before).push(c@));
        },
        None => {},
    }
    done
}

/// Builds a message from a gathered one, given the date read from its header
/// (`None` when unreadable) and the attachment captures of its first body
/// line. No message without a date.
pub fn assemble_message(
    raw: &RawMessage,
    created_at: Option<DateTime>,
    attachment: Option<Vec<Option<String>>>,
) -> (res: Option<ParsedMessage>)
    ensures
        (match res {
            Some(m) => Some(m@),
            None => None,
        }) == assembled(raw@, created_at, captures_view(attachment)),
{
    match created_at {
        None => None,
        Some(t) => {
            let attachment_name = match attachment {
                Some(g) => group_at(&g, 1),
                None => None,
            };
            let author = match copy_opt_string(&raw.author) {
                Some(a) => a,
                None => String::new(),
            };
            let author_type = if raw.body.as_str().is_empty() {
                "SYSTEM".to_owned()
            } else {
                "USER".to_owned()
            };
            let m = ParsedMessage {
                author,
                author_type,
                created_at: t,
                content: raw.body.clone(),
                attachment_name,
            };
            Some(m)
        },
    }
}

fn date_format_list() -> (res: Vec<&'static str>)
    ensures
        res@.len() == date_formats().len(),
        forall|i: int| 0 <= i < res@.len() ==> #[trigger] res@[i]@ == date_formats()[i],
{
    let v = vec![
        "%d.%m.%Y. %H:%M:%S",
        "%d.%m.%Y. %H:%M",
        "%d.%m.%y. %H:%M:%S",
        "%d.%m.%y. %H:%M",
        "%m.%d.%Y. %H:%M:%S",
        "%m.%d.%Y. %H:%M",
        "%m.%d.%y. %H:%M:%S",
        "%m.%d.%y. %H:%M",
        "%d.%m.%Y. %I:%M %p",
        "%m.%d.%Y. %I:%M %p",
    ];
    v
}

/// A date text trimmed of white space and brackets, with `,` made `.`.
pub fn clean_date_text(text: &str) -> (res: String)
    ensures
        res@ == cleaned_date(text@),
{
    let c = chars_of(text);
    let t = trim_whitespace(&c);
    let b = vec!['[', ']'];
    assert(b@ =~= brackets());
    let u = trim_chars(&t, &b);
    let comma = vec![','];
    assert(comma@ =~= seq![',']);
    let r = replace_chars(&u, &comma, '.');
    string_of(&r)
}

/// A cleaned date text with `-`, `/` and `,` made `.`.
pub fn normalize_date_text(text: &str) -> (res: String)
    ensures
        res@ == normalized_date(text@),
{
    let cleaned = clean_date_text(text);
    let c = chars_of(cleaned.as_str());
    let set = vec!['-', '/', ','];
    assert(set@ =~= seq!['-', '/', ',']);
    let r = replace_chars(&c, &set, '.');
    string_of(&r)
}

impl MessageParser {
    /// The configured date format.
    pub closed spec fn format(&self) -> Option<Seq<char>> {
        opt_view(self.custom_format)
    }

    /// The header-line pattern.
    pub closed spec fn line_pattern(&self) -> Seq<char> {
        self.line_re@
    }

    /// The attachment pattern.
    pub closed spec fn attachment_pattern(&self) -> Seq<char> {
        self.attachment_re@
    }

    /// A parser with the given date format (`None`: the built-in formats).
    /// Fails exactly when one of its patterns does not compile.
    pub fn new(custom_format: Option<String>) -> (res: Result<Self, ParserError>)
        ensures
            res is Ok <==> crate::pattern::pattern_compiles(LINE_PATTERN@)
                && crate::pattern::pattern_compiles(ATTACHMENT_PATTERN@),
            res matches Ok(p) ==> {
                &&& p.format() == opt_view(custom_format)
                &&& p.line_pattern() == LINE_PATTERN@
                &&& p.attachment_pattern() == ATTACHMENT_PATTERN@
            },
    {
        let line_re = match compile_pattern(LINE_PATTERN) {
            Ok(p) => p,
            Err(_) => return Err(ParserError::InvalidPattern),
        };
        let attachment_re = match compile_pattern(ATTACHMENT_PATTERN) {
            Ok(p) => p,
            Err(_) => return Err(ParserError::InvalidPattern),
        };
        Ok(MessageParser { custom_format, line_re, attachment_re })
    }

    /// Reads the date of a header: with the configured format from the
    /// cleaned text, or else with the first built-in format that reads the
    /// normalized text. `None` when nothing reads it.
    pub fn parse_date(&self, text: &str) -> (res: Option<DateTime>)
        ensures
            res == header_date(self.format(), text@),
    {
        let cleaned = clean_date_text(text);
        match &self.custom_format {
            Some(f) => {
                return parse_date_time(cleaned.as_str(), f.as_str());
            },
            None => {},
        }
        let normalized = normalize_date_text(text);
        let formats = date_format_list();
        let mut i: usize = 0;
        assert(date_formats().skip(0) =~= date_formats());
        while i < formats.len()
            invariant
                i <= formats@.len(),
                self.format() is None,
                normalized@ == normalized_date(text@),
                formats@.len() == date_formats().len(),
                forall|k: int| 0 <= k < formats@.len() ==> #[trigger] formats@[k]@ == date_formats()[k],
                first_parse(normalized@, date_formats()) == first_parse(
                    normalized@,
                    date_formats().skip(i as int),
                ),
            decreases formats@.len() - i,
        {
            assert(date_formats().skip(i as int).drop_first() =~= date_formats().skip(i + 1));
            assert(date_formats().skip(i as int)[0] == date_formats()[i as int]);
            let parsed = parse_date_time(normalized.as_str(), formats[i]);
            if parsed.is_some() {
                assert(first_parse(normalized@, date_formats().skip(i as int)) == parsed);
                return parsed;
            }
            i = i + 1;
        }
        assert(date_formats().skip(i as int).len() == 0);
        None
    }

    /// Builds a message from a gathered one: reads its date and looks for an
    /// attachment name on its first body line. `None` when the date cannot be
    /// read.
    pub fn build_message(&self, raw: &RawMessage) -> (res: Option<ParsedMessage>)
        ensures
            (match res {
                Some(m) => Some(m@),
                None => None,
            }) == build_one(self.format(), self.attachment_pattern(), raw@),
    {
        let created_at = self.parse_date(raw.date.as_str());
        let body = chars_of(raw.body.as_str());
        let lines = split_lines(&body);
        let first = if lines.len() > 0 {
            string_of(&lines[0])
        } else {
            String::new()
        };
        let caps = captures(&self.attachment_re, first.as_str());
        assemble_message(raw, created_at, caps)
    }

    /// The messages of a chat export, in order. Each line loses its trailing
    /// NULs; a line that matches the header pattern opens a message, other
    /// lines continue the open one; messages whose date cannot be read are
    /// left out.
    pub fn parse_messages(&self, text: &str) -> (res: Vec<ParsedMessage>)
        ensures
            message_views(res@) == parsed_messages(
                self.format(),
                self.line_pattern(),
                self.attachment_pattern(),
                text@,
            ),
    {
        let chars = chars_of(text);
        let lines = split_lines(&chars);
        let nul_set = vec!['\0'];
        assert(nul_set@ =~= nul());
        let ghost cl = cleaned_lines(text@);
        let mut cleaned: Vec<String> = Vec::new();
        let mut heads: Vec<Option<RawMessage>> = Vec::new();
        let mut i: usize = 0;
        while i < lines.len()
            invariant
                i <= lines@.len(),
                nul_set@ == nul(),
                lines@.len() == lines_of(text@).len(),
                forall|k: int| 0 <= k < lines@.len() ==> #[trigger] lines@[k]@ == lines_of(text@)[k],
                cl == cleaned_lines(text@),
                cleaned@.len() == i,
                heads@.len() == i,
                string_views(cleaned@) == cl.take(i as int),
                header_views(heads@) == line_headers(self.line_pattern(), cl).take(i as int),
            decreases lines@.len() - i,
        {
            let (a, b) = trim_bounds(&lines[i], &nul_set, false, true);
            let s = string_of_range(&lines[i], a, b);
            let caps = captures(&self.line_re, s.as_str());
            let h = header_from_captures(caps);
            let ghost old_c = cleaned@;
            let ghost old_h = heads@;
            cleaned.push(s);
            heads.push(h);
            assert(string_views(cleaned@) =~= string_views(old_c).push(s@));
            assert(header_views(heads@) =~= header_views(old_h).push(
                match h {
                    Some(r) => Some(r@),
                    None => None,
                },
            ));
            assert(cl.take(i + 1) =~= cl.take(i as int).push(cl[i as int]));
            assert(line_headers(self.line_pattern(), cl).take(i + 1) =~= line_headers(
                self.line_pattern(),
                cl,
            ).take(i as int).push(line_headers(self.line_pattern(), cl)[i as int]));
            i = i + 1;
        }
        assert(cl.take(i as int) =~= cl);
        assert(line_headers(self.line_pattern(), cl).take(i as int) =~= line_headers(
            self.line_pattern(),
            cl,
        ));
        let raws = collect_raw_messages(&cleaned, &heads);
        let ghost rv = raw_views(raws@);
        let mut out: Vec<ParsedMessage> = Vec::new();
        let mut j: usize = 0;
        while j < raws.len()
            invariant
                j <= raws@.len(),
                rv == raw_views(raws@),
                message_views(out@) == build_all(
                    self.format(),
                    self.attachment_pattern(),
                    rv.take(j as int),
                ),
            decreases raws@.len() - j,
        {
            assert(rv.take(j + 1).drop_last() =~= rv.take(j as int));
            let built = self.build_message(&raws[j]);
            match built {
                Some(m) => {
                    let ghost before = out@;
                    out.push(m);
                    assert(message_views(out@) =~= message_views(before).push(m@));
                },
                None => {},
            }
            j = j + 1;
        }
        assert(rv.take(j as int) =~= rv);
        out
    }
}

/// Number of lines that open a message.
pub open spec fn count_headers(heads: Seq<Option<RawView>>) -> nat
    decreases heads.len(),
{
    if heads.len() == 0 {
        0
    } else {
        count_headers(heads.drop_last()) + if heads.last() is Some { 1nat } else { 0nat }
    }
}

proof fn lemma_group_upto_count(lines: Seq<Seq<char>>, heads: Seq<Option<RawView>>, n: nat)
    requires
        n <= heads.len(),
    ensures
        group_upto(lines, heads, n).0.len() + (if group_upto(lines, heads, n).1 is Some {
            1nat
        } else {
            0nat
        }) == count_headers(heads.take(n as int)),
    decreases n,
{
    if n > 0 {
        lemma_group_upto_count(lines, heads, (n - 1) as nat);
        assert(heads.take(n as int).drop_last() =~= heads.take(n - 1));
    } else {
        assert(heads.take(0) =~= Seq::<Option<RawView>>::empty());
    }
}

proof fn lemma_build_all_len(c: Option<Seq<char>>, a: Seq<char>, raws: Seq<RawView>)
    ensures
        build_all(c, a, raws).len() <= raws.len(),
    decreases raws.len(),
{
    if raws.len() > 0 {
        lemma_build_all_len(c, a, raws.drop_last());
    }
}

proof fn lemma_build_all_kinds(c: Option<Seq<char>>, a: Seq<char>, raws: Seq<RawView>)
    ensures
        forall|i: int| 0 <= i < build_all(c, a, raws).len() ==> {
            let m = #[trigger] build_all(c, a, raws)[i];
            m.author_type == if m.content.len() == 0 { "SYSTEM"@ } else { "USER"@ }
        },
    decreases raws.len(),
{
    if raws.len() > 0 {
        lemma_build_all_kinds(c, a, raws.drop_last());
    }
}

/// Without a configured format, a header date is read day first: the
/// normalized date text is tried with the day-first formats (four-digit year,
/// then two-digit year; with seconds, then without), then with the same
/// formats month first, then with the 12-hour formats, day first before
/// month first; the first that reads the text gives the date, and none gives
/// no date. So a text that a day-first format reads, such as `03.04.2023.
/// 10:00`, is dated day first (3 April), never month first.
pub proof fn law_header_date_reads_day_first(text: Seq<char>)
    ensures
        header_date(None, text) == ({
            let n = normalized_date(text);
            if parsed_date_time(n, "%d.%m.%Y. %H:%M:%S"@) is Some {
                parsed_date_time(n, "%d.%m.%Y. %H:%M:%S"@)
            } else if parsed_date_time(n, "%d.%m.%Y. %H:%M"@) is Some {
                parsed_date_time(n, "%d.%m.%Y. %H:%M"@)
            } else if parsed_date_time(n, "%d.%m.%y. %H:%M:%S"@) is Some {
                parsed_date_time(n, "%d.%m.%y. %H:%M:%S"@)
            } else if parsed_date_time(n, "%d.%m.%y. %H:%M"@) is Some {
                parsed_date_time(n, "%d.%m.%y. %H:%M"@)
            } else if parsed_date_time(n, "%m.%d.%Y. %H:%M:%S"@) is Some {
                parsed_date_time(n, "%m.%d.%Y. %H:%M:%S"@)
            } else if parsed_date_time(n, "%m.%d.%Y. %H:%M"@) is Some {
                parsed_date_time(n, "%m.%d.%Y. %H:%M"@)
            } else if parsed_date_time(n, "%m.%d.%y. %H:%M:%S"@) is Some {
                parsed_date_time(n, "%m.%d.%y. %H:%M:%S"@)
            } else if parsed_date_time(n, "%m.%d.%y. %H:%M"@) is Some {
                parsed_date_time(n, "%m.%d.%y. %H:%M"@)
            } else if parsed_date_time(n, "%d.%m.%Y. %I:%M %p"@) is Some {
                parsed_date_time(n, "%d.%m.%Y. %I:%M %p"@)
            } else if parsed_date_time(n, "%m.%d.%Y. %I:%M %p"@) is Some {
                parsed_date_time(n, "%m.%d.%Y. %I:%M %p"@)
            } else {
                None
            }
        }),
        parsed_date_time(normalized_date(text), "%d.%m.%Y. %H:%M:%S"@) is None
            && parsed_date_time(normalized_date(text), "%d.%m.%Y. %H:%M"@) is Some
            ==> header_date(None, text) == parsed_date_time(
            normalized_date(text),
            "%d.%m.%Y. %H:%M"@,
        ),
{
    reveal_with_fuel(first_parse, 11);
    let f = date_formats();
    let n = normalized_date(text);
    assert(f.drop_first() =~= f.subrange(1, 10));
    assert(f.drop_first().drop_first() =~= f.subrange(2, 10));
    assert(f.subrange(2, 10).drop_first() =~= f.subrange(3, 10));
    assert(f.subrange(3, 10).drop_first() =~= f.subrange(4, 10));
    assert(f.subrange(4, 10).drop_first() =~= f.subrange(5, 10));
    assert(f.subrange(5, 10).drop_first() =~= f.subrange(6, 10));
    assert(f.subrange(6, 10).drop_first() =~= f.subrange(7, 10));
    assert(f.subrange(7, 10).drop_first() =~= f.subrange(8, 10));
    assert(f.subrange(8, 10).drop_first() =~= f.subrange(9, 10));
    assert(f.subrange(9, 10).drop_first().len() == 0);
}

/// Every parsed message is of type "SYSTEM" when its content is empty and
/// of type "USER" otherwise.
pub proof fn law_author_type_follows_content(
    custom: Option<Seq<char>>,
    line_pattern: Seq<char>,
    attachment_pattern: Seq<char>,
    text: Seq<char>,
)
    ensures
        forall|i: int| 0 <= i < parsed_messages(custom, line_pattern, attachment_pattern, text).len() ==> {
            let m = #[trigger] parsed_messages(custom, line_pattern, attachment_pattern, text)[i];
            m.author_type == if m.content.len() == 0 { "SYSTEM"@ } else { "USER"@ }
        },
{
    let lines = cleaned_lines(text);
    lemma_build_all_kinds(custom, attachment_pattern, grouped(lines, line_headers(line_pattern, lines)));
}

/// An export yields at most one message per header line; an export without
/// header lines yields none.
pub proof fn law_at_most_one_message_per_header_line(
    custom: Option<Seq<char>>,
    line_pattern: Seq<char>,
    attachment_pattern: Seq<char>,
    text: Seq<char>,
)
    ensures
        parsed_messages(custom, line_pattern, attachment_pattern, text).len() <= count_headers(
            line_headers(line_pattern, cleaned_lines(text)),
        ),
{
    let lines = cleaned_lines(text);
    let heads = line_headers(line_pattern, lines);
    lemma_group_upto_count(lines, heads, lines.len());
    assert(heads.take(lines.len() as int) =~= heads);
    lemma_build_all_len(custom, attachment_pattern, grouped(lines, heads));
}

/// Whether a header at some line opened a message with this date.
pub open spec fn date_of_some_header(heads: Seq<Option<RawView>>, n: int, date: Seq<char>) -> bool {
    exists|j: int| 0 <= j < n && (#[trigger] heads[j]) is Some && heads[j]->0.date == date
}

proof fn lemma_group_upto_dates(lines: Seq<Seq<char>>, heads: Seq<Option<RawView>>, n: nat)
    requires
        n <= heads.len(),
    ensures
        forall|i: int|
            0 <= i < group_upto(lines, heads, n).0.len() ==> date_of_some_header(
                heads,
                n as int,
                (#[trigger] group_upto(lines, heads, n).0[i]).date,
            ),
        group_upto(lines, heads, n).1 matches Some(c) ==> date_of_some_header(heads, n as int, c.date),
    decreases n,
{
    if n > 0 {
        lemma_group_upto_dates(lines, heads, (n - 1) as nat);
        let (done, cur) = group_upto(lines, heads, (n - 1) as nat);
        assert forall|i: int| 0 <= i < done.len() implies date_of_some_header(heads, n as int, #[trigger] done[i].date) by {
            let j = choose|j: int| 0 <= j < n - 1 && (#[trigger] heads[j]) is Some && heads[j]->0.date == done[i].date;
        }
        if cur is Some {
            let j = choose|j: int| 0 <= j < n - 1 && (#[trigger] heads[j]) is Some && heads[j]->0.date == cur->0.date;
            assert(date_of_some_header(heads, n as int, cur->0.date));
        }
        match heads[n - 1] {
            Some(h) => {
                assert(date_of_some_header(heads, n as int, h.date)) by {
                    assert(heads[n - 1] is Some);
                }
            },
            None => {},
        }
    }
}

proof fn lemma_build_all_keeps_readable(c: Option<Seq<char>>, a: Seq<char>, raws: Seq<RawView>)
    requires
        forall|i: int| 0 <= i < raws.len() ==> header_date(c, (#[trigger] raws[i]).date) is Some,
    ensures
        build_all(c, a, raws).len() == raws.len(),
    decreases raws.len(),
{
    if raws.len() > 0 {
        assert forall|i: int| 0 <= i < raws.drop_last().len() implies header_date(
            c,
            (#[trigger] raws.drop_last()[i]).date,
        ) is Some by {
            assert(raws.drop_last()[i] == raws[i]);
        }
        lemma_build_all_keeps_readable(c, a, raws.drop_last());
        assert(header_date(c, raws[raws.len() - 1].date) is Some);
    }
}

/// When the date of every header line can be read, every header line yields
/// exactly one message.
pub proof fn law_one_message_per_readable_header_line(
    custom: Option<Seq<char>>,
    line_pattern: Seq<char>,
    attachment_pattern: Seq<char>,
    text: Seq<char>,
)
    requires
        forall|j: int|
            0 <= j < line_headers(line_pattern, cleaned_lines(text)).len() && (#[trigger] line_headers(
                line_pattern,
                cleaned_lines(text),
            )[j]) is Some ==> header_date(
                custom,
                line_headers(line_pattern, cleaned_lines(text))[j]->0.date,
            ) is Some,
    ensures
        parsed_messages(custom, line_pattern, attachment_pattern, text).len() == count_headers(
            line_headers(line_pattern, cleaned_lines(text)),
        ),
{
    let lines = cleaned_lines(text);
    let heads = line_headers(line_pattern, lines);
    let n = lines.len();
    lemma_group_upto_count(lines, heads, n);
    assert(heads.take(n as int) =~= heads);
    lemma_group_upto_dates(lines, heads, n);
    let raws = grouped(lines, heads);
    let (done, cur) = group_upto(lines, heads, n);
    assert forall|i: int| 0 <= i < raws.len() implies header_date(custom, (#[trigger] raws[i]).date) is Some by {
        let d = raws[i].date;
        if i < done.len() {
            assert(raws[i] == done[i]);
            assert(date_of_some_header(heads, n as int, done[i].date));
        } else {
            assert(cur is Some);
            assert(raws[i] == cur->0);
        }
        assert(date_of_some_header(heads, n as int, d));
        let j = choose|j: int| 0 <= j < n && (#[trigger] heads[j]) is Some && heads[j]->0.date == d;
        assert(heads[j] is Some);
    }
    lemma_build_all_keeps_readable(custom, attachment_pattern, raws);
}

} // verus!
