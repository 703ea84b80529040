//! The optional e-mail importer: its settings, and which attachments of a
//! mail it imports into which chat.
use vstd::prelude::*;
use mail_parser::MimeHeaders;
use crate::config::{opt_text, or_default, ConfigError};
use crate::ids::is_uuid_text;
use crate::storage::path_join;
use crate::text::{
    chars_of, has_prefix, lowercase, parse_unsigned, same_chars, split_char, split_pieces,
    starts_with_seq, string_of, to_lowercase, trim_whitespace, trim_ws, unsigned_value,
};
use vstd::utf8::{decode_utf8, encode_utf8, is_char_boundary};
use vstd::string::StringSliceAdditionalSpecFns;

verus! {

broadcast use {vstd::string::group_string_axioms, vstd::utf8::encode_utf8_valid_utf8};

/// Settings of the e-mail importer.
pub struct EmailConfig {
    pub host: String,
    pub port: u16,
    pub username: String,
    pub password: String,
    pub fixed_delay_ms: u64,
    pub subject_prefixes: Vec<String>,
    pub scratch_dir: String,
}

/// The subject prefixes used when none are configured.
pub open spec fn default_subject_prefixes() -> Seq<char> {
    "chat-vault,Conversa do WhatsApp com"@
}

/// The pieces, trimmed, without the empty ones.
pub open spec fn trimmed_nonempty(pieces: Seq<Seq<char>>) -> Seq<Seq<char>>
    decreases pieces.len(),
{
    if pieces.len() == 0 {
        Seq::empty()
    } else {
        let rest = trimmed_nonempty(pieces.drop_last());
        let t = trim_ws(pieces.last());
        if t.len() > 0 {
            rest.push(t)
        } else {
            rest
        }
    }
}

/// The subject prefixes of a setting: its comma-separated entries, trimmed,
/// without empty ones.
pub open spec fn prefixes_of(setting: Seq<char>) -> Seq<Seq<char>> {
    trimmed_nonempty(split_pieces(setting, ','))
}

pub open spec fn string_seq_view(v: Seq<String>) -> Seq<Seq<char>> {
    Seq::new(v.len(), |i: int| v[i]@)
}

/// The subject prefixes of `CHATVAULT_EMAIL_SUBJECT_STARTS_WITH` (`None`
/// when unset, which gives the default prefixes).
pub fn subject_prefixes(setting: Option<&str>) -> (res: Vec<String>)
    ensures
        string_seq_view(res@) == prefixes_of(
            match setting {
                Some(s) => s@,
                None => default_subject_prefixes(),
            },
        ),
{
    let text = match setting {
        Some(s) => chars_of(s),
        None => chars_of("chat-vault,Conversa do WhatsApp com"),
    };
    let pieces = split_char(&text, ',');
    let ghost ps = split_pieces(text@, ',');
    let mut out: Vec<String> = Vec::new();
    let mut i: usize = 0;
    while i < pieces.len()
        invariant
            i <= pieces@.len(),
            ps == split_pieces(text@, ','),
            pieces@.len() == ps.len(),
            forall|k: int| 0 <= k < pieces@.len() ==> #[trigger] pieces@[k]@ == ps[k],
            string_seq_view(out@) == trimmed_nonempty(ps.take(i as int)),
        decreases pieces@.len() - i,
    {
        assert(ps.take(i + 1).drop_last() =~= ps.take(i as int));
        let t = trim_whitespace(&pieces[i]);
        if t.len() > 0 {
            let ghost before = out@;
            out.push(string_of(&t));
            assert(string_seq_view(out@) =~= string_seq_view(before).push(t@));
        }
        i = i + 1;
    }
    assert(ps.take(ps.len() as int) =~= ps);
    out
}

/// A setting of the e-mail importer that is missing or wrong.
pub ghost enum SettingFailure {
    NoPrefixes,
    NoHost,
    BadPort,
    NoUsername,
    NoPassword,
}

/// Which setting the importer's settings fail on first, if any: no subject
/// prefix, no host, a port that is no number up to 65535, no user name, no
/// password.
pub open spec fn email_settings_failure(
    prefixes_empty: bool,
    host: Option<Seq<char>>,
    port: Option<Seq<char>>,
    username: Option<Seq<char>>,
    password: Option<Seq<char>>,
) -> Option<SettingFailure> {
    if prefixes_empty {
        Some(SettingFailure::NoPrefixes)
    } else if host is None {
        Some(SettingFailure::NoHost)
    } else if !port_ok(or_default(port, "993"@)) {
        Some(SettingFailure::BadPort)
    } else if username is None {
        Some(SettingFailure::NoUsername)
    } else if password is None {
        Some(SettingFailure::NoPassword)
    } else {
        None
    }
}

/// Whether a port setting reads as a `u16`.
pub open spec fn port_ok(text: Seq<char>) -> bool {
    unsigned_value(text) matches Some(v) && v <= u16::MAX
}

/// The delay between polls: the setting read as a `u64`, else 10000 ms.
pub open spec fn delay_setting(value: Option<Seq<char>>) -> int {
    match value {
        Some(v) => match unsigned_value(v) {
            Some(n) => if n <= u64::MAX {
                n
            } else {
                10000
            },
            None => 10000,
        },
        None => 10000,
    }
}

fn required(value: Option<String>, name: &str) -> (res: Result<String, ConfigError>)
    ensures
        match value {
            Some(v) => res == Ok::<String, ConfigError>(v),
            None => res matches Err(ConfigError::Missing(n)) && n@ == name@,
        },
{
    match value {
        Some(v) => Ok(v),
        None => Err(ConfigError::Missing(name.to_owned())),
    }
}

impl EmailConfig {
    /// The importer's settings from the values of its environment variables
    /// (`None` when unset). Checked in this order: the subject prefixes
    /// (default `chat-vault,Conversa do WhatsApp com`) must not all be
    /// empty; `CHATVAULT_EMAIL_HOST` is required; the port (default `993`)
    /// must be a `u16`; `CHATVAULT_EMAIL_USERNAME` and
    /// `CHATVAULT_EMAIL_PASSWORD` are required. The delay defaults to
    /// 10000 ms when unset or not a number, the scratch directory to
    /// `/tmp/chatvault`.
    pub fn from_settings(
        host: Option<String>,
        port: Option<String>,
        username: Option<String>,
        password: Option<String>,
        fixed_delay_ms: Option<String>,
        subject_prefix_setting: Option<String>,
        scratch_dir: Option<String>,
    ) -> (res: Result<EmailConfig, ConfigError>)
        ensures
            ({
                let prefixes = prefixes_of(or_default(opt_text(subject_prefix_setting), default_subject_prefixes()));
                let failure = email_settings_failure(
                    prefixes.len() == 0,
                    opt_text(host),
                    opt_text(port),
                    opt_text(username),
                    opt_text(password),
                );
                match res {
                    Ok(c) => {
                        &&& failure is None
                        &&& c.host@ == opt_text(host).unwrap()
                        &&& unsigned_value(or_default(opt_text(port), "993"@)) == Some(c.port as int)
                        &&& c.username@ == opt_text(username).unwrap()
                        &&& c.password@ == opt_text(password).unwrap()
                        &&& c.fixed_delay_ms == delay_setting(opt_text(fixed_delay_ms))
                        &&& string_seq_view(c.subject_prefixes@) == prefixes
                        &&& c.scratch_dir@ == or_default(opt_text(scratch_dir), "/tmp/chatvault"@)
                    },
                    Err(e) => match failure {
                        Some(SettingFailure::NoPrefixes) => e == ConfigError::EmptySubjectPrefixes,
                        Some(SettingFailure::NoHost) => e matches ConfigError::Missing(n) && n@
                            == "CHATVAULT_EMAIL_HOST"@,
                        Some(SettingFailure::BadPort) => e == ConfigError::InvalidPort,
                        Some(SettingFailure::NoUsername) => e matches ConfigError::Missing(n) && n@
                            == "CHATVAULT_EMAIL_USERNAME"@,
                        Some(SettingFailure::NoPassword) => e matches ConfigError::Missing(n) && n@
                            == "CHATVAULT_EMAIL_PASSWORD"@,
                        None => false,
                    },
                }
            }),
    {
        let delay = match &fixed_delay_ms {
            Some(v) => match parse_unsigned(v.as_str(), u64::MAX) {
                Some(n) => n,
                None => 10000,
            },
            None => 10000,
        };
        let prefixes = match &subject_prefix_setting {
            Some(s) => subject_prefixes(Some(s.as_str())),
            None => subject_prefixes(None),
        };
        if prefixes.len() == 0 {
            return Err(ConfigError::EmptySubjectPrefixes);
        }
        let host = match required(host, "CHATVAULT_EMAIL_HOST") {
            Ok(h) => h,
            Err(e) => return Err(e),
        };
        let port_text = match port {
            Some(p) => p,
            None => "993".to_owned(),
        };
        let port_value = match parse_unsigned(port_text.as_str(), 65535) {
            Some(p) => {
                assert(p <= 65535);
                p as u16
            },
            None => return Err(ConfigError::InvalidPort),
        };
        let username = match required(username, "CHATVAULT_EMAIL_USERNAME") {
            Ok(u) => u,
            Err(e) => return Err(e),
        };
        let password = match required(password, "CHATVAULT_EMAIL_PASSWORD") {
            Ok(p) => p,
            Err(e) => return Err(e),
        };
        let scratch = match scratch_dir {
            Some(d) => d,
            None => "/tmp/chatvault".to_owned(),
        };
        Ok(EmailConfig {
            host,
            port: port_value,
            username,
            password,
            fixed_delay_ms: delay,
            subject_prefixes: prefixes,
            scratch_dir: scratch,
        })
    }
}

/// Whether a flag setting is on: when set, its lower-cased value is `1`,
/// `true`, `yes` or `on`; when unset, `default`.
pub open spec fn flag_on(value: Option<Seq<char>>, default: bool) -> bool {
    match value {
        Some(v) => {
            let l = lowercase(v);
            l == "1"@ || l == "true"@ || l == "yes"@ || l == "on"@
        },
        None => default,
    }
}

/// Reads a flag setting such as `CHATVAULT_EMAIL_ENABLED`.
pub fn flag_enabled(value: Option<&str>, default: bool) -> (res: bool)
    ensures
        res == flag_on(
            match value {
                Some(s) => Some(s@),
                None => None,
            },
            default,
        ),
{
    match value {
        None => default,
        Some(v) => {
            let lower = to_lowercase(v);
            let l = chars_of(lower.as_str());
            let one = chars_of("1");
            let t = chars_of("true");
            let y = chars_of("yes");
            let o = chars_of("on");
            same_chars(&l, &one) || same_chars(&l, &t) || same_chars(&l, &y) || same_chars(&l, &o)
        },
    }
}

/// A mail as plain values: its subject, and each attachment's name and
/// decoded contents.
pub struct EmailContent {
    pub subject: Option<String>,
    pub attachments: Vec<EmailAttachment>,
}

/// An attachment of a mail.
pub struct EmailAttachment {
    pub name: Option<String>,
    pub contents: Vec<u8>,
}

/// The attachments as mathematical values.
pub open spec fn attachments_view(v: Seq<EmailAttachment>) -> Seq<(Option<Seq<char>>, Seq<u8>)> {
    Seq::new(v.len(), |i: int| (opt_text(v[i].name), v[i].contents@))
}

/// What `mail_parser` reads from a raw RFC 822 message: `None` when it is no
/// message, else the decoded subject and each attachment's name and decoded
/// contents. Named, not defined: it depends on the raw bytes alone.
pub uninterp spec fn parsed_email(raw: Seq<u8>) -> Option<(Option<Seq<char>>, Seq<(Option<Seq<char>>, Seq<u8>)>)>;

/// `mail_parser::MessageParser::default().parse`, then the message's
/// `subject`, and `attachment_name` and `contents` of each of its
/// `attachments`. Trusted: the result is `parsed_email(raw@)`.
#[verifier::external_body]
fn parse_email(raw: &[u8]) -> (res: Option<EmailContent>)
    ensures
        match res {
            Some(e) => parsed_email(raw@) == Some((opt_text(e.subject), attachments_view(e.attachments@))),
            None => parsed_email(raw@) is None,
        },
{
    match mail_parser::MessageParser::default().parse(raw) {
        Some(m) => Some(EmailContent {
            subject: m.subject().map(|s| s.to_string()),
            attachments: m.attachments().map(|a| EmailAttachment {
                name: a.attachment_name().map(|n| n.to_string()),
                contents: a.contents().to_vec(),
            }).collect(),
        }),
        None => None,
    }
}

/// The first prefix that the subject starts with, ignoring case.
pub open spec fn first_matching_prefix(subject: Seq<char>, prefixes: Seq<Seq<char>>) -> Option<Seq<char>>
    decreases prefixes.len(),
{
    if prefixes.len() == 0 {
        None
    } else if has_prefix(lowercase(subject), lowercase(prefixes[0])) {
        Some(prefixes[0])
    } else {
        first_matching_prefix(subject, prefixes.drop_first())
    }
}

/// The chat that a mail's attachments go to: the subject after as many
/// bytes as the matched prefix has, trimmed; the whole subject when that cut
/// is not at a character boundary or leaves nothing.
pub open spec fn email_chat_name(subject: Seq<char>, prefix: Seq<char>) -> Seq<char> {
    let bytes = encode_utf8(subject);
    let n = encode_utf8(prefix).len() as int;
    if is_char_boundary(bytes, n) && trim_ws(decode_utf8(bytes.skip(n))).len() > 0 {
        trim_ws(decode_utf8(bytes.skip(n)))
    } else {
        subject
    }
}

proof fn lemma_encode_utf8_concat(p: Seq<char>, r: Seq<char>)
    ensures
        encode_utf8(p + r) == encode_utf8(p) + encode_utf8(r),
    decreases p.len(),
{
    if p.len() == 0 {
        assert(p + r =~= r);
        assert(encode_utf8(p) + encode_utf8(r) =~= encode_utf8(r));
    } else {
        assert((p + r)[0] == p[0]);
        assert((p + r).drop_first() =~= p.drop_first() + r);
        lemma_encode_utf8_concat(p.drop_first(), r);
        let e = vstd::utf8::encode_scalar(p[0] as u32);
        assert(e + (encode_utf8(p.drop_first()) + encode_utf8(r)) =~= (e + encode_utf8(
            p.drop_first(),
        )) + encode_utf8(r));
    }
}

proof fn lemma_boundary_after_encoded_head(p: Seq<char>, r: Seq<char>)
    ensures
        is_char_boundary(encode_utf8(p + r), encode_utf8(p).len() as int),
    decreases p.len(),
{
    if p.len() > 0 {
        let b = encode_utf8(p + r);
        let q = p.drop_first();
        lemma_encode_utf8_concat(p, r);
        lemma_encode_utf8_concat(q, r);
        vstd::utf8::encode_utf8_first_scalar(p + r);
        assert((p + r)[0] == p[0]);
        assert((p + r).drop_first() =~= q + r);
        let e = vstd::utf8::encode_scalar(p[0] as u32);
        assert(b == e + encode_utf8(q + r));
        assert(vstd::utf8::pop_first_scalar(b) =~= encode_utf8(q + r));
        lemma_boundary_after_encoded_head(q, r);
        assert(encode_utf8(p).len() == e.len() + encode_utf8(q).len());
    }
}

/// When the subject is a head of as many UTF-8 bytes as the matched prefix,
/// followed by a rest that holds more than white space, the chat is that
/// rest trimmed, inner spaces and all: "Conversa do WhatsApp com Maria
/// Silva" after the prefix "Conversa do WhatsApp com" names the chat "Maria
/// Silva".
pub proof fn law_chat_name_is_rest_of_subject(
    subject: Seq<char>,
    prefix: Seq<char>,
    head: Seq<char>,
    rest: Seq<char>,
)
    requires
        subject == head + rest,
        encode_utf8(head).len() == encode_utf8(prefix).len(),
        trim_ws(rest).len() > 0,
    ensures
        email_chat_name(subject, prefix) == trim_ws(rest),
{
    lemma_encode_utf8_concat(head, rest);
    lemma_boundary_after_encoded_head(head, rest);
    let n = encode_utf8(prefix).len() as int;
    assert(encode_utf8(subject).skip(n) =~= encode_utf8(rest));
    vstd::utf8::encode_utf8_decode_utf8(rest);
}

/// A subject that is the prefix itself, or the prefix followed by white
/// space only, names the chat after the whole subject.
pub proof fn law_bare_prefix_names_chat_after_subject(subject: Seq<char>, prefix: Seq<char>, rest: Seq<char>)
    requires
        subject == prefix + rest,
        trim_ws(rest).len() == 0,
    ensures
        email_chat_name(subject, prefix) == subject,
{
    lemma_encode_utf8_concat(prefix, rest);
    let n = encode_utf8(prefix).len() as int;
    assert(encode_utf8(subject).skip(n) =~= encode_utf8(rest));
    vstd::utf8::encode_utf8_decode_utf8(rest);
}

/// An attachment to import: the chat it goes to, its file name, and its
/// contents.
pub struct PendingImport {
    pub chat_name: String,
    pub file_name: String,
    pub contents: Vec<u8>,
}

/// The imports as mathematical values.
pub open spec fn imports_view(v: Seq<PendingImport>) -> Seq<(Seq<char>, Seq<char>, Seq<u8>)> {
    Seq::new(v.len(), |i: int| (v[i].chat_name@, v[i].file_name@, v[i].contents@))
}

/// The named attachments, each into `chat`; unnamed ones are skipped.
pub open spec fn named_imports(chat: Seq<char>, atts: Seq<(Option<Seq<char>>, Seq<u8>)>) -> Seq<
    (Seq<char>, Seq<char>, Seq<u8>),
>
    decreases atts.len(),
{
    if atts.len() == 0 {
        Seq::empty()
    } else {
        let rest = named_imports(chat, atts.drop_last());
        match atts.last().0 {
            Some(name) => rest.push((chat, name, atts.last().1)),
            None => rest,
        }
    }
}

/// The imports of a mail: none when its subject (empty when missing) starts
/// with no prefix, ignoring case; else each named attachment, into the chat
/// that the subject names after the first matching prefix.
pub open spec fn planned_imports(
    prefixes: Seq<Seq<char>>,
    subject: Option<Seq<char>>,
    atts: Seq<(Option<Seq<char>>, Seq<u8>)>,
) -> Seq<(Seq<char>, Seq<char>, Seq<u8>)> {
    let s = or_default(subject, Seq::empty());
    match first_matching_prefix(s, prefixes) {
        None => Seq::empty(),
        Some(p) => named_imports(email_chat_name(s, p), atts),
    }
}

fn chat_name_after_prefix(subject: &str, prefix: &str) -> (res: String)
    ensures
        res@ == email_chat_name(subject@, prefix@),
{
    let n = prefix.as_bytes().len();
    if subject.is_char_boundary(n) {
        let (_, rest) = subject.split_at(n);
        proof {
            vstd::utf8::encode_utf8_decode_utf8(rest@);
            assert(rest.spec_bytes() =~= encode_utf8(subject@).skip(n as int));
        }
        let c = chars_of(rest);
        let t = trim_whitespace(&c);
        if t.len() > 0 {
            return string_of(&t);
        }
    }
    subject.to_owned()
}

fn copy_bytes(v: &Vec<u8>) -> (res: Vec<u8>)
    ensures
        res@ == v@,
{
    let mut out: Vec<u8> = Vec::new();
    let mut i: usize = 0;
    while i < v.len()
        invariant
            i <= v@.len(),
            out@ == v@.take(i as int),
        decreases v@.len() - i,
    {
        out.push(v[i]);
        assert(v@.take(i + 1) =~= v@.take(i as int).push(v@[i as int]));
        i = i + 1;
    }
    assert(v@.take(v@.len() as int) =~= v@);
    out
}

/// The attachments of a mail to import, and the chat each goes to: none
/// when the subject starts with no prefix (ignoring case), else every named
/// attachment, into the chat that the subject names after the first
/// matching prefix.
pub fn email_imports(prefixes: &Vec<String>, email: &EmailContent) -> (res: Vec<PendingImport>)
    ensures
        imports_view(res@) == planned_imports(
            string_seq_view(prefixes@),
            opt_text(email.subject),
            attachments_view(email.attachments@),
        ),
{
    let subject = match &email.subject {
        Some(s) => s.clone(),
        None => String::new(),
    };
    let ghost ps = string_seq_view(prefixes@);
    let lower_subject = to_lowercase(subject.as_str());
    let ls = chars_of(lower_subject.as_str());
    let mut found = false;
    let mut i: usize = 0;
    assert(ps.skip(0) =~= ps);
    while i < prefixes.len() && !found
        invariant
            i <= prefixes@.len(),
            ps == string_seq_view(prefixes@),
            ls@ == lowercase(subject@),
            !found ==> first_matching_prefix(subject@, ps) == first_matching_prefix(
                subject@,
                ps.skip(i as int),
            ),
            found ==> i < prefixes@.len() && first_matching_prefix(subject@, ps) == Some(ps[i as int]),
        decreases prefixes@.len() - i + if found { 0int } else { 1int },
    {
        assert(ps.skip(i as int).drop_first() =~= ps.skip(i + 1));
        assert(ps.skip(i as int)[0] == ps[i as int]);
        let lp = to_lowercase(prefixes[i].as_str());
        let lpc = chars_of(lp.as_str());
        if starts_with_seq(&ls, &lpc) {
            found = true;
        } else {
            i = i + 1;
        }
    }
    let mut out: Vec<PendingImport> = Vec::new();
    if !found {
        assert(ps.skip(i as int).len() == 0);
        return out;
    }
    let chat = chat_name_after_prefix(subject.as_str(), prefixes[i].as_str());
    let ghost av = attachments_view(email.attachments@);
    let mut j: usize = 0;
    while j < email.attachments.len()
        invariant
            j <= email.attachments@.len(),
            av == attachments_view(email.attachments@),
            imports_view(out@) == named_imports(chat@, av.take(j as int)),
        decreases email.attachments@.len() - j,
    {
        assert(av.take(j + 1).drop_last() =~= av.take(j as int));
        let a = &email.attachments[j];
        match &a.name {
            Some(n) => {
                let ghost before = out@;
                let item = PendingImport {
                    chat_name: chat.clone(),
                    file_name: n.clone(),
                    contents: copy_bytes(&a.contents),
                };
                out.push(item);
                assert(imports_view(out@) =~= imports_view(before).push(
                    (item.chat_name@, item.file_name@, item.contents@),
                ));
            },
            None => {},
        }
        j = j + 1;
    }
    assert(av.take(email.attachments@.len() as int) =~= av);
    out
}

/// Why a mail could not be read.
#[derive(Debug, PartialEq, Eq)]
pub enum EmailError {
    /// The bytes are no RFC 822 message.
    Unparsable,
}

/// The attachments of a raw mail to import. Refused when the bytes are no
/// message.
pub fn extract_imports_from_email(prefixes: &Vec<String>, raw: &[u8]) -> (res: Result<Vec<PendingImport>, EmailError>)
    ensures
        match parsed_email(raw@) {
            None => res == Err::<Vec<PendingImport>, EmailError>(EmailError::Unparsable),
            Some((subject, atts)) => res matches Ok(v) && imports_view(v@) == planned_imports(
                string_seq_view(prefixes@),
                subject,
                atts,
            ),
        },
{
    match parse_email(raw) {
        None => Err(EmailError::Unparsable),
        Some(email) => Ok(email_imports(prefixes, &email)),
    }
}

/// A file name with every character other than ASCII letters, digits, `.`,
/// `-` and `_` made `_`.
pub open spec fn safe_file_name(name: Seq<char>) -> Seq<char> {
    Seq::new(
        name.len(),
        |i: int| {
            let c = name[i];
            if ('a' <= c && c <= 'z') || ('A' <= c && c <= 'Z') || ('0' <= c && c <= '9') || c
                == '.' || c == '-' || c == '_' {
                c
            } else {
                '_'
            }
        },
    )
}

/// The scratch file for an attachment, for a given identifier: `email-`, the
/// identifier, `-` and the safe file name, inside the scratch directory.
pub open spec fn scratch_file(scratch_dir: Seq<char>, id: Seq<char>, file_name: Seq<char>) -> Seq<char> {
    path_join(scratch_dir, "email-"@ + id + "-"@ + safe_file_name(file_name))
}

/// The scratch file for an attachment with the given identifier.
pub fn scratch_file_path(scratch_dir: &str, id: &str, file_name: &str) -> (res: String)
    ensures
        res@ == scratch_file(scratch_dir@, id@, file_name@),
{
    let f = chars_of(file_name);
    let mut name: Vec<char> = chars_of("email-");
    let ghost base = name@;
    let idc = chars_of(id);
    let mut k: usize = 0;
    while k < idc.len()
        invariant
            k <= idc@.len(),
            name@ == base + idc@.take(k as int),
        decreases idc@.len() - k,
    {
        name.push(idc[k]);
        assert(idc@.take(k + 1) =~= idc@.take(k as int).push(idc@[k as int]));
        k = k + 1;
    }
    assert(idc@.take(idc@.len() as int) =~= idc@);
    name.push('-');
    let ghost mid = name@;
    let mut i: usize = 0;
    while i < f.len()
        invariant
            i <= f@.len(),
            name@ == mid + safe_file_name(f@).take(i as int),
        decreases f@.len() - i,
    {
        let c = f[i];
        let kept = ('a' <= c && c <= 'z') || ('A' <= c && c <= 'Z') || ('0' <= c && c <= '9') || c
            == '.' || c == '-' || c == '_';
        if kept {
            name.push(c);
        } else {
            name.push('_');
        }
        assert(safe_file_name(f@).take(i + 1) =~= safe_file_name(f@).take(i as int).push(
            safe_file_name(f@)[i as int],
        ));
        i = i + 1;
    }
    assert(safe_file_name(f@).take(f@.len() as int) =~= safe_file_name(f@));
    proof {
        reveal_strlit("email-");
        reveal_strlit("-");
        assert(name@ =~= "email-"@ + id@ + "-"@ + safe_file_name(file_name@));
    }
    let dir = chars_of(scratch_dir);
    let joined = crate::storage::join_paths(&dir, &name);
    string_of(&joined)
}

/// The scratch file for an attachment: inside the scratch directory, named
/// after a random identifier and the safe file name.
pub fn scratch_path(scratch_dir: &str, file_name: &str) -> (res: String)
    ensures
        exists|id: Seq<char>| is_uuid_text(id) && res@ == scratch_file(scratch_dir@, id, file_name@),
{
    let id = crate::ids::new_uuid();
    scratch_file_path(scratch_dir, id.as_str(), file_name)
}

} // verus!
