//! Service settings: defaults for what the environment leaves unset, and the
//! checks made on what it sets.
use vstd::prelude::*;
use crate::text::{chars_of, parse_unsigned, trim_whitespace, trim_ws, unsigned_value};

verus! {

broadcast use vstd::string::group_string_axioms;

/// A setting that could not be used.
#[derive(Debug, PartialEq, Eq)]
pub enum ConfigError {
    /// A required setting is unset; it holds the setting's name.
    Missing(String),
    /// The mail server port is not a number from 0 to 65535.
    InvalidPort,
    /// No subject prefix is left after trimming and dropping empty entries.
    EmptySubjectPrefixes,
    /// A numeric setting is not a number of its type; it holds the setting's
    /// name.
    InvalidNumber(String),
    /// The storage provider is neither `s3` nor `filesystem`; it holds the
    /// value given.
    UnsupportedStorageProvider(String),
}

/// The service's settings.
pub struct Config {
    pub bind: String,
    pub public_dir: String,
    pub scratch_dir: String,
    pub version: String,
    pub msg_date_format: Option<String>,
}

/// A setting's value, or the default when it is unset.
pub open spec fn or_default(value: Option<Seq<char>>, default: Seq<char>) -> Seq<char> {
    match value {
        Some(v) => v,
        None => default,
    }
}

/// The text of an optional string.
pub open spec fn opt_text(o: Option<String>) -> Option<Seq<char>> {
    match o {
        Some(s) => Some(s@),
        None => None,
    }
}

/// A date format is used only when it is more than white space.
pub open spec fn date_format_setting(value: Option<Seq<char>>) -> Option<Seq<char>> {
    match value {
        Some(v) => if trim_ws(v).len() > 0 {
            Some(v)
        } else {
            None
        },
        None => None,
    }
}

fn value_or(value: Option<String>, default: &str) -> (res: String)
    ensures
        res@ == or_default(opt_text(value), default@),
{
    match value {
        Some(v) => v,
        None => default.to_owned(),
    }
}

impl Config {
    /// The settings from the values of `BIND`, `CHATVAULT_PUBLIC_DIR`,
    /// `CHATVAULT_SCRATCH_DIR`, `CHATVAULT_VERSION` and
    /// `CHATVAULT_MSGPARSER_DATEFORMAT` (`None` when unset): defaults
    /// `0.0.0.0:8080`, `/app/public`, `/tmp/chatvault`, `rust-0.1.0`, and no
    /// date format when it is unset or only white space.
    pub fn from_settings(
        bind: Option<String>,
        public_dir: Option<String>,
        scratch_dir: Option<String>,
        version: Option<String>,
        msg_date_format: Option<String>,
    ) -> (res: Config)
        ensures
            res.bind@ == or_default(opt_text(bind), "0.0.0.0:8080"@),
            res.public_dir@ == or_default(opt_text(public_dir), "/app/public"@),
            res.scratch_dir@ == or_default(opt_text(scratch_dir), "/tmp/chatvault"@),
            res.version@ == or_default(opt_text(version), "rust-0.1.0"@),
            opt_text(res.msg_date_format) == date_format_setting(opt_text(msg_date_format)),
    {
        let format = match msg_date_format {
            Some(f) => {
                let c = chars_of(f.as_str());
                let t = trim_whitespace(&c);
                if t.len() > 0 {
                    Some(f)
                } else {
                    None
                }
            },
            None => None,
        };
        Config {
            bind: value_or(bind, "0.0.0.0:8080"),
            public_dir: value_or(public_dir, "/app/public"),
            scratch_dir: value_or(scratch_dir, "/tmp/chatvault"),
            version: value_or(version, "rust-0.1.0"),
            msg_date_format: format,
        }
    }
}

/// Where archived files are kept.
#[derive(Debug, PartialEq, Eq)]
pub enum StorageProvider {
    S3,
    Filesystem,
}

/// The provider setting, `s3` when unset.
pub open spec fn provider_name(value: Option<&str>) -> Seq<char> {
    match value {
        Some(s) => s@,
        None => "s3"@,
    }
}

/// The storage provider named by `CHATVAULT_BUCKET_PROVIDER`: `s3` when
/// unset; `s3` and `filesystem` are known, any other value is refused.
pub fn storage_provider(value: Option<&str>) -> (res: Result<StorageProvider, ConfigError>)
    ensures
        provider_name(value) == "filesystem"@ ==> res matches Ok(StorageProvider::Filesystem),
        provider_name(value) == "s3"@ ==> res matches Ok(StorageProvider::S3),
        provider_name(value) != "filesystem"@ && provider_name(value) != "s3"@ ==> (res matches Err(
            ConfigError::UnsupportedStorageProvider(given),
        ) && given@ == provider_name(value)),
{
    let v = match value {
        Some(s) => chars_of(s),
        None => chars_of("s3"),
    };
    let fs = chars_of("filesystem");
    let s3 = chars_of("s3");
    proof {
        reveal_strlit("filesystem");
        reveal_strlit("s3");
        assert(fs@ != s3@) by {
            assert(fs@.len() != s3@.len());
        }
    }
    if crate::text::same_chars(&v, &fs) {
        Ok(StorageProvider::Filesystem)
    } else if crate::text::same_chars(&v, &s3) {
        Ok(StorageProvider::S3)
    } else {
        Err(ConfigError::UnsupportedStorageProvider(crate::text::string_of(&v)))
    }
}

/// A `u32` setting such as `DATABASE_MAX_CONNECTIONS`: the default when
/// unset, the number when it reads as a `u32`, else refused with the
/// setting's name.
pub fn parse_u32_setting(name: &str, value: Option<&str>, default: u32) -> (res: Result<u32, ConfigError>)
    ensures
        match value {
            None => res == Ok::<u32, ConfigError>(default),
            Some(v) => match unsigned_value(v@) {
                Some(n) => if n <= u32::MAX {
                    res == Ok::<u32, ConfigError>(n as u32)
                } else {
                    res matches Err(ConfigError::InvalidNumber(m)) && m@ == name@
                },
                None => res matches Err(ConfigError::InvalidNumber(m)) && m@ == name@,
            },
        },
{
    match value {
        None => Ok(default),
        Some(v) => match parse_unsigned(v, 4294967295) {
            Some(n) => Ok(n as u32),
            None => Err(ConfigError::InvalidNumber(name.to_owned())),
        },
    }
}

} // verus!
