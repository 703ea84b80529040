use chatvault::config::ConfigError;
use chatvault::email::{
    email_imports, extract_imports_from_email, flag_enabled, scratch_file_path, scratch_path,
    subject_prefixes, EmailAttachment, EmailConfig, EmailContent, EmailError,
};

fn s(v: &str) -> Option<String> {
    Some(v.to_string())
}

#[test]
fn default_subject_prefixes() {
    assert_eq!(subject_prefixes(None), vec!["chat-vault".to_string(), "Conversa do WhatsApp com".to_string()]);
    assert_eq!(subject_prefixes(Some(" a, ,b ,")), vec!["a".to_string(), "b".to_string()]);
    assert!(subject_prefixes(Some(" , ")).is_empty());
}

#[test]
fn email_settings_with_defaults() {
    let c = EmailConfig::from_settings(s("imap.example.org"), None, s("user"), s("pw"), None, None, None).unwrap();
    assert_eq!(c.host, "imap.example.org");
    assert_eq!(c.port, 993);
    assert_eq!(c.fixed_delay_ms, 10000);
    assert_eq!(c.scratch_dir, "/tmp/chatvault");
    assert_eq!(c.subject_prefixes.len(), 2);
    let d = EmailConfig::from_settings(s("h"), s("+143"), s("u"), s("p"), s("250"), s("x"), s("/s")).unwrap();
    assert_eq!(d.port, 143);
    assert_eq!(d.fixed_delay_ms, 250);
    assert_eq!(d.subject_prefixes, vec!["x".to_string()]);
    assert_eq!(d.scratch_dir, "/s");
    let bad_delay = EmailConfig::from_settings(s("h"), None, s("u"), s("p"), s("soon"), None, None).unwrap();
    assert_eq!(bad_delay.fixed_delay_ms, 10000);
}

#[test]
fn email_settings_errors_come_in_order() {
    assert_eq!(
        EmailConfig::from_settings(None, s("x"), None, None, None, s(","), None).err(),
        Some(ConfigError::EmptySubjectPrefixes)
    );
    assert_eq!(
        EmailConfig::from_settings(None, s("x"), None, None, None, None, None).err(),
        Some(ConfigError::Missing("CHATVAULT_EMAIL_HOST".to_string()))
    );
    assert_eq!(
        EmailConfig::from_settings(s("h"), s("70000"), None, None, None, None, None).err(),
        Some(ConfigError::InvalidPort)
    );
    assert_eq!(
        EmailConfig::from_settings(s("h"), s("-1"), None, None, None, None, None).err(),
        Some(ConfigError::InvalidPort)
    );
    assert_eq!(
        EmailConfig::from_settings(s("h"), s("993"), None, None, None, None, None).err(),
        Some(ConfigError::Missing("CHATVAULT_EMAIL_USERNAME".to_string()))
    );
    assert_eq!(
        EmailConfig::from_settings(s("h"), s("993"), s("u"), None, None, None, None).err(),
        Some(ConfigError::Missing("CHATVAULT_EMAIL_PASSWORD".to_string()))
    );
}

#[test]
fn flags_read_common_spellings() {
    assert!(flag_enabled(Some("TRUE"), false));
    assert!(flag_enabled(Some("Yes"), false));
    assert!(flag_enabled(Some("1"), false));
    assert!(flag_enabled(Some("on"), false));
    assert!(!flag_enabled(Some("0"), true));
    assert!(flag_enabled(None, true));
    assert!(!flag_enabled(None, false));
}

fn attachment(name: Option<&str>, contents: &[u8]) -> EmailAttachment {
    EmailAttachment { name: name.map(|n| n.to_string()), contents: contents.to_vec() }
}

fn prefixes() -> Vec<String> {
    subject_prefixes(None)
}

#[test]
fn imports_go_to_the_chat_named_after_the_prefix() {
    let mail = EmailContent {
        subject: s("Conversa do WhatsApp com Maria"),
        attachments: vec![attachment(Some("chat.zip"), b"zip"), attachment(None, b"x"), attachment(Some("a.txt"), b"t")],
    };
    let out = email_imports(&prefixes(), &mail);
    assert_eq!(out.len(), 2);
    assert_eq!(out[0].chat_name, "Maria");
    assert_eq!(out[0].file_name, "chat.zip");
    assert_eq!(out[0].contents, b"zip".to_vec());
    assert_eq!(out[1].file_name, "a.txt");
}

#[test]
fn prefixes_match_ignoring_case() {
    let mail = EmailContent { subject: s("CHAT-VAULT Family"), attachments: vec![attachment(Some("f.txt"), b"")] };
    let out = email_imports(&prefixes(), &mail);
    assert_eq!(out.len(), 1);
    assert_eq!(out[0].chat_name, "Family");
}

#[test]
fn a_subject_that_is_only_the_prefix_names_the_chat() {
    let mail = EmailContent { subject: s("chat-vault"), attachments: vec![attachment(Some("f.txt"), b"")] };
    assert_eq!(email_imports(&prefixes(), &mail)[0].chat_name, "chat-vault");
}

#[test]
fn the_cut_after_the_prefix_counts_bytes() {
    let p = vec!["éé".to_string()];
    let mail = EmailContent { subject: s("ÉÉ xyz"), attachments: vec![attachment(Some("f"), b"")] };
    assert_eq!(email_imports(&p, &mail)[0].chat_name, "xyz");
}

#[test]
fn mails_without_a_matching_prefix_import_nothing() {
    let mail = EmailContent { subject: s("Invoice"), attachments: vec![attachment(Some("f.txt"), b"")] };
    assert!(email_imports(&prefixes(), &mail).is_empty());
    let no_subject = EmailContent { subject: None, attachments: vec![attachment(Some("f.txt"), b"")] };
    assert!(email_imports(&prefixes(), &no_subject).is_empty());
}

#[test]
fn raw_mails_are_parsed_for_attachments() {
    let raw = b"From: a@example.org\r\nSubject: chat-vault Family\r\nMIME-Version: 1.0\r\nContent-Type: multipart/mixed; boundary=\"b\"\r\n\r\n--b\r\nContent-Type: text/plain\r\n\r\nhello\r\n--b\r\nContent-Type: text/plain\r\nContent-Disposition: attachment; filename=\"chat.txt\"\r\n\r\nabc\r\n--b--\r\n";
    let out = extract_imports_from_email(&prefixes(), raw).unwrap();
    assert_eq!(out.len(), 1);
    assert_eq!(out[0].chat_name, "Family");
    assert_eq!(out[0].file_name, "chat.txt");
    assert_eq!(out[0].contents, b"abc".to_vec());
}

#[test]
fn unparsable_mails_are_refused() {
    assert_eq!(extract_imports_from_email(&prefixes(), b"").err(), Some(EmailError::Unparsable));
}

#[test]
fn scratch_files_have_safe_names() {
    assert_eq!(
        scratch_file_path("/tmp/chatvault", "1234", "my file?.txt"),
        "/tmp/chatvault/email-1234-my_file_.txt"
    );
    let p = scratch_path("/tmp/x/", "a b");
    assert!(p.starts_with("/tmp/x/email-"));
    assert!(p.ends_with("-a_b"));
    assert_eq!(p.len(), "/tmp/x/email-".len() + 36 + "-a_b".len());
}
