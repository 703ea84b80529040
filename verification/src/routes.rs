//! What the request handlers decide: paging windows, file and chat names,
//! storage keys, and the rows that an import stores.
use vstd::prelude::*;
use crate::config::opt_text;
use crate::datetime::DateTime;
use crate::error::AppError;
use crate::models::{AttachmentInfoOutput, PageQuery};
use crate::parser::ParsedMessage;
use crate::storage::{joined_key, normalized_prefix, object_key, dot_dot, StorageError};
use crate::text::{
    chars_of, contains_seq, decimal_string, decimal_text, ends_with_seq, has_substring,
    has_suffix, lowercase, push_char, slice_vec, starts_with_seq, string_of, to_lowercase,
    trim_end_pattern, trim_end_seq, trim_start_set, trim_bounds, has_prefix,
};

verus! {

broadcast use vstd::string::group_string_axioms;

/// `v` limited to `lo..=hi` (std `Ord::clamp`).
pub open spec fn clamp(v: int, lo: int, hi: int) -> int {
    if v < lo {
        lo
    } else if v > hi {
        hi
    } else {
        v
    }
}

/// The page number of a listing: the one asked for (default 0), at least 0.
pub open spec fn requested_page(page: Option<i64>) -> int {
    let p = match page {
        Some(p) => p as int,
        None => 0,
    };
    if p < 0 {
        0
    } else {
        p
    }
}

/// The page size of a listing: the one asked for (default 20), kept within
/// 1 to 2000.
pub open spec fn requested_size(size: Option<i64>) -> int {
    clamp(
        match size {
            Some(s) => s as int,
            None => 20,
        },
        1,
        2000,
    )
}

/// The page size that is used: the one asked for (default 20), kept within
/// 1 to 2000.
pub fn page_size(size: Option<i64>) -> (res: i64)
    ensures
        res == requested_size(size),
        1 <= res <= 2000,
{
    let s = match size {
        Some(s) => s,
        None => 20,
    };
    if s < 1 {
        1
    } else if s > 2000 {
        2000
    } else {
        s
    }
}

/// Which messages a listing shows: the page and its size, the search text,
/// the `LIKE` pattern for it, and the number of messages skipped.
pub struct PageWindow {
    pub page: i64,
    pub size: i64,
    pub search: String,
    pub like: String,
    pub offset: i64,
}

/// Whether the number of skipped messages of a listing fits in an `i64`.
pub open spec fn window_fits(query: PageQuery) -> bool {
    requested_page(query.page) * requested_size(query.size) <= i64::MAX
}

impl PageQuery {
    /// The window of a message listing: page (default 0, at least 0), size
    /// (default 20, within 1 to 2000), search text (default empty), the
    /// pattern `%` + lower-cased search + `%`, and page times size skipped.
    pub fn window(&self) -> (res: PageWindow)
        requires
            window_fits(*self),
        ensures
            res.page == requested_page(self.page),
            res.size == requested_size(self.size),
            res.search@ == crate::config::or_default(opt_text(self.query), Seq::empty()),
            res.like@ == seq!['%'] + lowercase(res.search@) + seq!['%'],
            res.offset == res.page * res.size,
    {
        let p = match self.page {
            Some(p) => p,
            None => 0,
        };
        let page = if p < 0 {
            0
        } else {
            p
        };
        let size = page_size(self.size);
        let search = match &self.query {
            Some(q) => q.clone(),
            None => String::new(),
        };
        let lower = to_lowercase(search.as_str());
        let mut like = String::new();
        push_char(&mut like, '%');
        like.append(lower.as_str());
        push_char(&mut like, '%');
        let offset = page * size;
        PageWindow { page, size, search, like, offset }
    }
}

/// A listing without a page number shows the first page: page 0, nothing
/// skipped. A page number asked for is used when it is not negative, and a
/// negative one gives page 0.
pub proof fn law_listing_without_page_is_first_page(page: i64, size: Option<i64>)
    ensures
        requested_page(None) == 0,
        requested_page(None) * requested_size(size) == 0,
        page >= 0 ==> requested_page(Some(page)) == page,
        page < 0 ==> requested_page(Some(page)) == 0,
{
}

/// A listing without a page size shows 20 messages; a size asked for is used
/// when it lies within 1 to 2000, and otherwise the nearer of the two.
pub proof fn law_listing_page_size(size: i64)
    ensures
        requested_size(None) == 20,
        1 <= size <= 2000 ==> requested_size(Some(size)) == size,
        size < 1 ==> requested_size(Some(size)) == 1,
        size > 2000 ==> requested_size(Some(size)) == 2000,
{
}

/// Whether a file of an archive is a chat export: its lower-cased name ends
/// with `.txt` and contains `whatsapp`, `chat` or `conversa`.
pub open spec fn chat_text_file(name: Seq<char>) -> bool {
    let lower = lowercase(name);
    &&& has_suffix(lower, ".txt"@)
    &&& (has_substring(lower, "whatsapp"@) || has_substring(lower, "chat"@) || has_substring(
        lower,
        "conversa"@,
    ))
}

/// Whether a file of an archive is a chat export to import.
pub fn is_chat_text_file(name: &str) -> (res: bool)
    ensures
        res == chat_text_file(name@),
{
    let lower = to_lowercase(name);
    let l = chars_of(lower.as_str());
    let txt = chars_of(".txt");
    let w = chars_of("whatsapp");
    let c = chars_of("chat");
    let v = chars_of("conversa");
    ends_with_seq(&l, &txt) && (contains_seq(&l, &w) || contains_seq(&l, &c) || contains_seq(
        &l,
        &v,
    ))
}

/// Any file whose lower-cased name ends with `.txt` and names WhatsApp, a
/// chat or a conversation ("conversa") is a chat export; no file whose
/// lower-cased name lacks the `.txt` ending, or names none of the three, is.
pub proof fn law_chat_text_files(name: Seq<char>)
    ensures
        has_suffix(lowercase(name), ".txt"@) && has_substring(lowercase(name), "whatsapp"@)
            ==> chat_text_file(name),
        has_suffix(lowercase(name), ".txt"@) && has_substring(lowercase(name), "chat"@)
            ==> chat_text_file(name),
        has_suffix(lowercase(name), ".txt"@) && has_substring(lowercase(name), "conversa"@)
            ==> chat_text_file(name),
        !has_suffix(lowercase(name), ".txt"@) ==> !chat_text_file(name),
        !has_substring(lowercase(name), "whatsapp"@) && !has_substring(lowercase(name), "chat"@)
            && !has_substring(lowercase(name), "conversa"@) ==> !chat_text_file(name),
{
}

/// Whether an uploaded file is a zip archive: its lower-cased name ends with
/// `.zip`.
pub fn is_zip_file(filename: &str) -> (res: bool)
    ensures
        res == has_suffix(lowercase(filename@), ".zip"@),
{
    let lower = to_lowercase(filename);
    let l = chars_of(lower.as_str());
    let z = chars_of(".zip");
    ends_with_seq(&l, &z)
}

/// The chat named by a file to import: the file name without trailing
/// `.zip`s, then without trailing `.txt`s.
pub fn chat_name_from_file_name(filename: &str) -> (res: String)
    ensures
        res@ == trim_end_pattern(trim_end_pattern(filename@, ".zip"@), ".txt"@),
{
    let f = chars_of(filename);
    let z = chars_of(".zip");
    let t = chars_of(".txt");
    let a = trim_end_seq(&f, &z);
    let b = trim_end_seq(&a, &t);
    string_of(&b)
}

/// The name of an archive entry for a stored key: the key without the
/// exported prefix (when it starts with it), then without leading slashes.
pub open spec fn entry_name(key: Seq<char>, prefix: Seq<char>) -> Seq<char> {
    let rest = if has_prefix(key, prefix) {
        key.skip(prefix.len() as int)
    } else {
        key
    };
    trim_start_set(rest, seq!['/'])
}

/// The name under which a stored file goes into an export archive.
pub fn zip_entry_name(key: &str, prefix: &str) -> (res: String)
    ensures
        res@ == entry_name(key@, prefix@),
{
    let k = chars_of(key);
    let p = chars_of(prefix);
    let rest = if starts_with_seq(&k, &p) {
        slice_vec(&k, p.len(), k.len())
    } else {
        slice_vec(&k, 0, k.len())
    };
    assert(k@.subrange(0, k@.len() as int) =~= k@);
    assert(has_prefix(k@, p@) ==> k@.subrange(p@.len() as int, k@.len() as int) =~= k@.skip(
        p@.len() as int,
    ));
    let slash = vec!['/'];
    assert(slash@ =~= seq!['/']);
    let (a, b) = trim_bounds(&rest, &slash, true, false);
    let out = slice_vec(&rest, a, b);
    string_of(&out)
}

/// The storage key of a chat's profile image: the chat id, then
/// `/profile-image`.
pub fn profile_image_key(chat_id: i64) -> (res: String)
    ensures
        res@ == decimal_text(chat_id as int) + "/profile-image"@,
{
    let mut key = decimal_string(chat_id);
    key.append("/profile-image");
    key
}

/// The file name of a chat's export archive: `chat-`, the chat id, `.zip`.
pub fn export_file_name(chat_id: i64) -> (res: String)
    ensures
        res@ == "chat-"@ + decimal_text(chat_id as int) + ".zip"@,
{
    let mut name = "chat-".to_owned();
    let id = decimal_string(chat_id);
    name.append(id.as_str());
    name.append(".zip");
    name
}

/// The file name of an upload: the one given, else `chat.txt`.
pub fn uploaded_file_name(file_name: Option<&str>) -> (res: String)
    ensures
        res@ == match file_name {
            Some(f) => f@,
            None => "chat.txt"@,
        },
{
    match file_name {
        Some(f) => f.to_owned(),
        None => "chat.txt".to_owned(),
    }
}

/// The chat that an upload by name goes to: the name given, else
/// `Imported Chat`.
pub fn imported_chat_name(chat_name: Option<&str>) -> (res: String)
    ensures
        res@ == match chat_name {
            Some(c) => c@,
            None => "Imported Chat"@,
        },
{
    match chat_name {
        Some(c) => c.to_owned(),
        None => "Imported Chat".to_owned(),
    }
}

/// A listed attachment: the message id and the attachment's name, empty
/// when it has none.
pub fn attachment_info(id: i64, name: Option<String>) -> (res: AttachmentInfoOutput)
    ensures
        res.id == id,
        res.name@ == crate::config::or_default(opt_text(name), Seq::empty()),
{
    AttachmentInfoOutput {
        id,
        name: match name {
            Some(n) => n,
            None => String::new(),
        },
    }
}

/// The download of a message's attachment: its storage key and file name
/// (default `attachment`). Refused as not found when the message has no
/// attachment.
pub fn attachment_download(path: Option<String>, name: Option<String>) -> (res: Result<
    (String, String),
    AppError,
>)
    ensures
        match path {
            Some(p) => res matches Ok((k, f)) && k@ == p@ && f@ == crate::config::or_default(
                opt_text(name),
                "attachment"@,
            ),
            None => res matches Err(AppError::NotFound(m)) && m@ == "attachment not found"@,
        },
{
    match path {
        None => Err(AppError::not_found("attachment not found")),
        Some(key) => {
            let filename = match name {
                Some(n) => n,
                None => "attachment".to_owned(),
            };
            Ok((key, filename))
        },
    }
}

/// What urlencoding's `decode` makes of a percent-encoded text: `None` when
/// the decoded bytes are no UTF-8. Named, not defined: it depends on the
/// text alone.
pub uninterp spec fn url_decoded(s: Seq<char>) -> Option<Seq<char>>;

/// `urlencoding::decode`. Trusted: the result is `url_decoded(s@)`, and a
/// text without `%` comes back unchanged (its source returns the input
/// itself then).
#[verifier::external_body]
fn url_decode(s: &str) -> (res: Option<String>)
    ensures
        opt_text(res) == url_decoded(s@),
        !s@.contains('%') ==> opt_text(res) == Some(s@),
{
    match urlencoding::decode(s) {
        Ok(d) => Some(d.into_owned()),
        Err(_) => None,
    }
}

/// The new name of a chat from its percent-encoded form: decoded, or kept
/// as given when it does not decode.
pub fn decode_chat_name(chat_name: &str) -> (res: String)
    ensures
        res@ == match url_decoded(chat_name@) {
            Some(d) => d,
            None => chat_name@,
        },
{
    match url_decode(chat_name) {
        Some(d) => d,
        None => chat_name.to_owned(),
    }
}

/// A message row to store for an imported message.
pub struct MessageRow {
    pub author: String,
    pub author_type: String,
    pub created_at: DateTime,
    pub content: String,
    pub attachment_path: Option<String>,
    pub attachment_name: Option<String>,
}

/// The storage key of a message's attachment in `bucket`, if it has one.
pub open spec fn attachment_key(bucket: Seq<char>, name: Option<Seq<char>>) -> Option<Seq<char>> {
    match name {
        Some(n) => Some(joined_key(bucket, n)),
        None => None,
    }
}

/// Whether some message's attachment key would contain `..`.
pub open spec fn some_key_invalid(bucket: Seq<char>, msgs: Seq<ParsedMessage>) -> bool {
    exists|i: int|
        0 <= i < msgs.len() && #[trigger] msgs[i].attachment_name is Some && has_substring(
            joined_key(bucket, msgs[i].attachment_name->0@),
            dot_dot(),
        )
}

/// The rows that an import stores for parsed messages: each message as it
/// was read, with the storage key of its attachment in `bucket`. Refused
/// when an attachment key would contain `..`.
pub fn message_rows(bucket: &str, messages: Vec<ParsedMessage>) -> (res: Result<
    Vec<MessageRow>,
    StorageError,
>)
    ensures
        res is Err <==> some_key_invalid(bucket@, messages@),
        res matches Ok(rows) ==> {
            &&& rows@.len() == messages@.len()
            &&& forall|i: int|
                0 <= i < rows@.len() ==> {
                    let r = #[trigger] rows@[i];
                    let m = messages@[i];
                    &&& r.author@ == m.author@
                    &&& r.author_type@ == m.author_type@
                    &&& r.created_at == m.created_at
                    &&& r.content@ == m.content@
                    &&& opt_text(r.attachment_name) == opt_text(m.attachment_name)
                    &&& opt_text(r.attachment_path) == attachment_key(
                        bucket@,
                        opt_text(m.attachment_name),
                    )
                }
        },
{
    let ghost msgs = messages@;
    let mut rows: Vec<MessageRow> = Vec::new();
    let mut i: usize = 0;
    while i < messages.len()
        invariant
            msgs == messages@,
            i <= msgs.len(),
            rows@.len() == i,
            forall|k: int| 0 <= k < i ==> !(#[trigger] msgs[k].attachment_name is Some && has_substring(
                joined_key(bucket@, msgs[k].attachment_name->0@),
                dot_dot(),
            )),
            forall|k: int|
                0 <= k < i ==> {
                    let r = #[trigger] rows@[k];
                    let m = msgs[k];
                    &&& r.author@ == m.author@
                    &&& r.author_type@ == m.author_type@
                    &&& r.created_at == m.created_at
                    &&& r.content@ == m.content@
                    &&& opt_text(r.attachment_name) == opt_text(m.attachment_name)
                    &&& opt_text(r.attachment_path) == attachment_key(
                        bucket@,
                        opt_text(m.attachment_name),
                    )
                },
        decreases msgs.len() - i,
    {
        let m = &messages[i];
        let path = match &m.attachment_name {
            Some(n) => match object_key(bucket, n.as_str()) {
                Ok(k) => Some(k),
                Err(e) => {
                    assert(msgs[i as int].attachment_name is Some);
                    return Err(e);
                },
            },
            None => None,
        };
        let row = MessageRow {
            author: m.author.clone(),
            author_type: m.author_type.clone(),
            created_at: m.created_at,
            content: m.content.clone(),
            attachment_path: path,
            attachment_name: match &m.attachment_name {
                Some(n) => Some(n.clone()),
                None => None,
            },
        };
        rows.push(row);
        i = i + 1;
    }
    Ok(rows)
}

/// A file stored under a chat's bucket is exported under its own name: the
/// archive entry of the key that `object_key` forms, relative to the
/// bucket's normalized prefix, is the file name without leading slashes.
pub proof fn law_export_entry_is_the_stored_file_name(bucket: Seq<char>, file_name: Seq<char>)
    ensures
        entry_name(joined_key(bucket, file_name), normalized_prefix(bucket)) == trim_start_set(
            file_name,
            seq!['/'],
        ),
{
    let np = normalized_prefix(bucket);
    let f = trim_start_set(file_name, seq!['/']);
    let k = joined_key(bucket, file_name);
    assert(crate::storage::slash() =~= seq!['/']);
    assert(k.take(np.len() as int) =~= np);
    assert(k.skip(np.len() as int) =~= f);
    crate::storage::lemma_trim_start_shape(file_name, seq!['/']);
    if f.len() > 0 {
        assert(!seq!['/'].contains(f[0]));
    }
    assert(trim_start_set(f, seq!['/']) == f);
}

} // verus!
