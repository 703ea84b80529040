use chatvault::config::{Config, ConfigError, StorageProvider, storage_provider};
use chatvault::datetime::{Date, DateTime};
use chatvault::error::AppError;
use chatvault::ids::{new_bucket_name, scratch_file_name};
use chatvault::models::PageQuery;
use chatvault::parser::ParsedMessage;
use chatvault::routes::{
    attachment_download, attachment_info, chat_name_from_file_name, decode_chat_name,
    export_file_name, imported_chat_name, is_chat_text_file, is_zip_file, message_rows,
    page_size, profile_image_key, uploaded_file_name, zip_entry_name,
};
use chatvault::storage::{normalize_prefix, object_key, StorageError};

#[test]
fn chat_text_files_are_recognized() {
    assert!(is_chat_text_file("WhatsApp Chat with Bob.txt"));
    assert!(is_chat_text_file("Conversa do WhatsApp.TXT"));
    assert!(is_chat_text_file("_chat.txt"));
    assert!(!is_chat_text_file("notes.txt"));
    assert!(!is_chat_text_file("chat.jpg"));
}

#[test]
fn zip_files_are_recognized_ignoring_case() {
    assert!(is_zip_file("CHAT.ZIP"));
    assert!(is_zip_file("a.zip"));
    assert!(!is_zip_file("a.zip.txt"));
}

#[test]
fn chat_names_come_from_file_names() {
    assert_eq!(chat_name_from_file_name("Family.zip"), "Family");
    assert_eq!(chat_name_from_file_name("Family.txt"), "Family");
    assert_eq!(chat_name_from_file_name("a.txt.zip"), "a");
    assert_eq!(chat_name_from_file_name("a.zip.zip"), "a");
    assert_eq!(chat_name_from_file_name("a.zip.txt"), "a.zip");
}

#[test]
fn zip_entries_are_named_relative_to_the_prefix() {
    assert_eq!(zip_entry_name("abc/x/y.txt", "abc/"), "x/y.txt");
    assert_eq!(zip_entry_name("other/y", "abc/"), "other/y");
    assert_eq!(zip_entry_name("//z", ""), "z");
}

#[test]
fn keys_and_names_from_chat_ids() {
    assert_eq!(profile_image_key(42), "42/profile-image");
    assert_eq!(profile_image_key(-7), "-7/profile-image");
    assert_eq!(profile_image_key(0), "0/profile-image");
    assert_eq!(export_file_name(5), "chat-5.zip");
    assert_eq!(export_file_name(i64::MIN), "chat--9223372036854775808.zip");
}

#[test]
fn defaults_for_uploads() {
    assert_eq!(uploaded_file_name(None), "chat.txt");
    assert_eq!(uploaded_file_name(Some("x.zip")), "x.zip");
    assert_eq!(imported_chat_name(None), "Imported Chat");
    assert_eq!(imported_chat_name(Some("Team")), "Team");
}

#[test]
fn chat_names_are_percent_decoded() {
    assert_eq!(decode_chat_name("My%20Chat"), "My Chat");
    assert_eq!(decode_chat_name("100%"), "100%");
    assert_eq!(decode_chat_name("%FF"), "%FF");
    assert_eq!(decode_chat_name("a+b"), "a+b");
}

#[test]
fn listing_windows_are_clamped() {
    let q = PageQuery { page: Some(-3), size: Some(5000), query: Some("HeLLo".to_string()) };
    let w = q.window();
    assert_eq!(w.page, 0);
    assert_eq!(w.size, 2000);
    assert_eq!(w.search, "HeLLo");
    assert_eq!(w.like, "%hello%");
    assert_eq!(w.offset, 0);
    let d = PageQuery { page: Some(3), size: None, query: None }.window();
    assert_eq!(d.size, 20);
    assert_eq!(d.offset, 60);
    assert_eq!(d.like, "%%");
    assert_eq!(page_size(Some(0)), 1);
    assert_eq!(page_size(None), 20);
}

#[test]
fn attachments_listing_and_download() {
    assert_eq!(attachment_info(3, None).name, "");
    assert_eq!(attachment_info(3, Some("a.jpg".into())).name, "a.jpg");
    assert_eq!(
        attachment_download(Some("b/a.jpg".into()), None),
        Ok(("b/a.jpg".to_string(), "attachment".to_string()))
    );
    assert_eq!(
        attachment_download(None, Some("a.jpg".into())),
        Err(AppError::NotFound("attachment not found".to_string()))
    );
}

fn message(name: Option<&str>) -> ParsedMessage {
    ParsedMessage {
        author: "A".into(),
        author_type: "USER".into(),
        created_at: DateTime { date: Date { year: 2023, month: 1, day: 2 }, hour: 3, minute: 4, second: 5, nanosecond: 0 },
        content: "c".into(),
        attachment_name: name.map(|n| n.to_string()),
    }
}

#[test]
fn message_rows_carry_attachment_keys() {
    let rows = message_rows("bucket", vec![message(None), message(Some("IMG.jpg"))]).unwrap();
    assert_eq!(rows.len(), 2);
    assert_eq!(rows[0].attachment_path, None);
    assert_eq!(rows[1].attachment_path, Some("bucket/IMG.jpg".to_string()));
    assert_eq!(rows[1].attachment_name, Some("IMG.jpg".to_string()));
    assert_eq!(rows[1].author, "A");
    let bad = message_rows("bucket", vec![message(Some("../x"))]);
    assert_eq!(bad.err(), Some(StorageError::InvalidObjectKey("bucket/../x".to_string())));
}

#[test]
fn config_defaults() {
    let c = Config::from_settings(None, None, None, None, Some("   ".into()));
    assert_eq!(c.bind, "0.0.0.0:8080");
    assert_eq!(c.public_dir, "/app/public");
    assert_eq!(c.scratch_dir, "/tmp/chatvault");
    assert_eq!(c.version, "rust-0.1.0");
    assert_eq!(c.msg_date_format, None);
    let d = Config::from_settings(Some("x".into()), None, None, Some("v".into()), Some("%d".into()));
    assert_eq!(d.bind, "x");
    assert_eq!(d.version, "v");
    assert_eq!(d.msg_date_format, Some("%d".to_string()));
}

#[test]
fn storage_providers() {
    assert_eq!(storage_provider(None), Ok(StorageProvider::S3));
    assert_eq!(storage_provider(Some("s3")), Ok(StorageProvider::S3));
    assert_eq!(storage_provider(Some("filesystem")), Ok(StorageProvider::Filesystem));
    assert_eq!(
        storage_provider(Some("ftp")),
        Err(ConfigError::UnsupportedStorageProvider("ftp".to_string()))
    );
}

#[test]
fn random_names_have_the_uuid_shape() {
    let b = new_bucket_name();
    assert_eq!(b.len(), 37);
    assert!(b.ends_with('/'));
    assert_eq!(b.as_bytes()[8], b'-');
    let f = scratch_file_name("upload");
    assert!(f.ends_with(".upload"));
    assert_eq!(f.len(), 36 + ".upload".len());
    assert_ne!(new_bucket_name(), new_bucket_name());
}

#[test]
fn app_errors_keep_their_messages() {
    assert_eq!(AppError::bad_request("x"), AppError::BadRequest("x".into()));
    assert_eq!(AppError::not_found("y"), AppError::NotFound("y".into()));
    assert_eq!(AppError::internal("z"), AppError::Internal("z".into()));
}

#[test]
fn law_export_entry_is_the_stored_file_name() {
    for (bucket, file) in [("b/", "x.txt"), ("/b", "//dir/y.jpg"), ("", "z")] {
        let key = object_key(bucket, file).unwrap();
        assert_eq!(zip_entry_name(&key, &normalize_prefix(bucket)), file.trim_start_matches('/'));
    }
}
