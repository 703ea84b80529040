//! The values that the service reads from requests and answers with.
use vstd::prelude::*;
use crate::datetime::{Date, DateTime};

verus! {

/// The service's version.
pub struct VersionOutput {
    pub version: String,
}

/// A chat with its most recent message and its number of messages.
pub struct ChatLastMessageOutput {
    pub chat_id: i64,
    pub chat_name: String,
    pub author_name: String,
    pub author_type: String,
    pub content: String,
    pub msg_created_at: DateTime,
    pub msg_count: i64,
}

/// A stored message.
pub struct MessageOutput {
    pub id: i64,
    pub author: String,
    pub author_type: String,
    pub content: String,
    pub attachment_name: Option<String>,
    pub created_at: DateTime,
}

/// A message that has an attachment, and the attachment's name.
pub struct AttachmentInfoOutput {
    pub id: i64,
    pub name: String,
}

/// One page of a listing, with the numbers that locate it.
pub struct PageOutput<T> {
    pub content: Vec<T>,
    pub last: bool,
    pub first: bool,
    pub number: i64,
    pub size: i64,
    pub total_elements: i64,
    pub total_pages: i64,
}

/// The number of messages on each day of a month.
pub struct MessageStatisticsOutput {
    pub month: i32,
    pub year: i32,
    pub statistics: Vec<DateStatisticOutput>,
    pub min_date: Date,
    pub max_date: Date,
    pub is_data_dense: bool,
}

/// The number of messages of one day.
#[derive(Clone, Copy, Debug, PartialEq, Eq, Structural)]
pub struct DateStatisticOutput {
    pub date: Date,
    pub count: i64,
}

/// Paging and search parameters of a message listing.
pub struct PageQuery {
    pub page: Option<i64>,
    pub size: Option<i64>,
    pub query: Option<String>,
}

/// The day around which messages are listed, and the page size.
pub struct DateQuery {
    pub date: Date,
    pub page_size: Option<i64>,
}

/// The month whose statistics are asked for.
pub struct StatsQuery {
    pub year: i32,
    pub month: i32,
}

/// A message sent to the service.
pub struct NewMessageInput {
    pub author_name: String,
    pub chat_id: i64,
    pub external_id: Option<String>,
    pub created_at: Option<DateTime>,
    pub content: String,
    pub attachment: Option<NewAttachmentInput>,
}

/// An attachment of a message sent to the service.
pub struct NewAttachmentInput {
    pub name: String,
    pub content: String,
}

} // verus!
