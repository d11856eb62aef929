//! Configuration: who the tools act as and which services they talk to, and the fields the
//! `config set` command can change.
use vstd::prelude::*;
use vstd::string::*;
use crate::text::{
    copy_str, debug_quoted, debug_text, decimal, i64_of_text, i64_to_decimal, join_path, lemma_decimal_reads_back,
    lemma_signed_decimal_reads_back, parse_i64, parse_usize, path_join, signed_decimal, signed_text_value, str_eq,
    unsigned_text_value, usize_of_text, usize_to_decimal,
};

verus! {

/// Whose data the tools look at by default.
#[derive(Debug, Clone)]
pub struct IdentityConfig {
    pub identifier: String,
}

/// The services the tools call.
#[derive(Debug, Clone)]
pub struct ServiceConfig {
    pub public_api_base: String,
    pub plc_directory_base: String,
}

/// How the link digest is gathered and cut down by default.
#[derive(Debug, Clone)]
pub struct LinkDigestConfig {
    /// When the follow list is polled, as a cron expression.
    pub follow_poll_cron: String,
    /// The most links a digest shows.
    pub limit: usize,
    /// The least bookmark + repost + like score a link needs.
    pub min_score: i64,
    /// The least number of distinct followed accounts that must share a link.
    pub min_shares: usize,
}

/// The whole configuration file.
#[derive(Debug, Clone)]
pub struct AppConfig {
    pub identity: IdentityConfig,
    pub services: ServiceConfig,
    pub link_digest: LinkDigestConfig,
}

pub open spec fn default_identifier() -> Seq<char> {
    "did:plc:xg2vq45muivyy3xwatcehspu"@
}

pub open spec fn default_public_api_base() -> Seq<char> {
    "https://public.api.bsky.app"@
}

pub open spec fn default_plc_directory_base() -> Seq<char> {
    "https://plc.directory"@
}

impl Default for IdentityConfig {
    fn default() -> (r: Self)
        ensures
            r.identifier@ == default_identifier(),
    {
        IdentityConfig { identifier: String::from_str("did:plc:xg2vq45muivyy3xwatcehspu") }
    }
}

pub open spec fn default_follow_poll_cron() -> Seq<char> {
    "0 * * * *"@
}

/// The digest's defaults: hourly polling, at most 20 links, any score, one sharer.
impl Default for LinkDigestConfig {
    fn default() -> (r: Self)
        ensures
            r.follow_poll_cron@ == default_follow_poll_cron(),
            r.limit == 20,
            r.min_score == 0,
            r.min_shares == 1,
    {
        LinkDigestConfig { follow_poll_cron: String::from_str("0 * * * *"), limit: 20, min_score: 0, min_shares: 1 }
    }
}

impl Default for ServiceConfig {
    fn default() -> (r: Self)
        ensures
            r.public_api_base@ == default_public_api_base(),
            r.plc_directory_base@ == default_plc_directory_base(),
    {
        ServiceConfig {
            public_api_base: String::from_str("https://public.api.bsky.app"),
            plc_directory_base: String::from_str("https://plc.directory"),
        }
    }
}

/// Why configuration could not be read, written or changed.
#[derive(Debug, Clone)]
pub enum ConfigError {
    MissingPath,
    Read { path: String, message: String },
    CreateDir { path: String, message: String },
    Write { path: String, message: String },
    Parse { path: String, message: String },
    Serialize(String),
    UnknownField(String),
    InvalidNumber { field: String, value: String },
}

/// The message of a configuration error, as the command line shows it.
pub open spec fn config_error_message(e: ConfigError) -> Seq<char> {
    match e {
        ConfigError::MissingPath => "could not determine config path; pass --config PATH or set XDG_CONFIG_HOME/HOME"@,
        ConfigError::Read { path, message } => "failed to read config at "@ + path@ + ": "@ + message@,
        ConfigError::CreateDir { path, message } => "failed to create config directory at "@ + path@ + ": "@
            + message@,
        ConfigError::Write { path, message } => "failed to write config at "@ + path@ + ": "@ + message@,
        ConfigError::Parse { path, message } => "failed to parse config at "@ + path@ + ": "@ + message@,
        ConfigError::Serialize(message) => "failed to serialize config: "@ + message@,
        ConfigError::UnknownField(f) => "unknown config field "@ + debug_text(f@),
        ConfigError::InvalidNumber { field, value } => "invalid value "@ + debug_text(value@) + " for "@ + field@
            + ": expected a whole number in range"@,
    }
}

impl ConfigError {
    /// The error's message, as the command line shows it.
    pub fn message(&self) -> (r: String)
        ensures
            r@ == config_error_message(*self),
    {
        match self {
            ConfigError::MissingPath => String::from_str(
                "could not determine config path; pass --config PATH or set XDG_CONFIG_HOME/HOME",
            ),
            ConfigError::Read { path, message } => {
                let mut r = String::from_str("failed to read config at ");
                r.append(path.as_str());
                r.append(": ");
                r.append(message.as_str());
                r
            },
            ConfigError::CreateDir { path, message } => {
                let mut r = String::from_str("failed to create config directory at ");
                r.append(path.as_str());
                r.append(": ");
                r.append(message.as_str());
                r
            },
            ConfigError::Write { path, message } => {
                let mut r = String::from_str("failed to write config at ");
                r.append(path.as_str());
                r.append(": ");
                r.append(message.as_str());
                r
            },
            ConfigError::Parse { path, message } => {
                let mut r = String::from_str("failed to parse config at ");
                r.append(path.as_str());
                r.append(": ");
                r.append(message.as_str());
                r
            },
            ConfigError::Serialize(message) => {
                let mut r = String::from_str("failed to serialize config: ");
                r.append(message.as_str());
                r
            },
            ConfigError::UnknownField(field) => {
                let mut r = String::from_str("unknown config field ");
                r.append(debug_quoted(field.as_str()).as_str());
                r
            },
            ConfigError::InvalidNumber { field, value } => {
                let mut r = String::from_str("invalid value ");
                r.append(debug_quoted(value.as_str()).as_str());
                r.append(" for ");
                r.append(field.as_str());
                r.append(": expected a whole number in range");
                r
            },
        }
    }
}

/// The fields `set_field` and `get_field` know.
pub open spec fn is_config_field(field: Seq<char>) -> bool {
    ||| field == "identity.identifier"@
    ||| field == "link-digest.follow-poll-cron"@
    ||| is_count_field(field)
    ||| field == "link-digest.min-score"@
    ||| field == "services.public-api-base"@
    ||| field == "services.plc-directory-base"@
}

/// The fields that hold a count (`usize`).
pub open spec fn is_count_field(field: Seq<char>) -> bool {
    field == "link-digest.limit"@ || field == "link-digest.min-shares"@
}

/// The value of a known field, as `get_field` writes it: text as stored, numbers in decimal.
pub open spec fn field_value(config: AppConfig, field: Seq<char>) -> Seq<char> {
    if field == "identity.identifier"@ {
        config.identity.identifier@
    } else if field == "link-digest.follow-poll-cron"@ {
        config.link_digest.follow_poll_cron@
    } else if field == "link-digest.limit"@ {
        decimal(config.link_digest.limit as nat)
    } else if field == "link-digest.min-score"@ {
        signed_decimal(config.link_digest.min_score as int)
    } else if field == "link-digest.min-shares"@ {
        decimal(config.link_digest.min_shares as nat)
    } else if field == "services.public-api-base"@ {
        config.services.public_api_base@
    } else {
        config.services.plc_directory_base@
    }
}

/// `value` as field `field` stores and shows it: a number read and written back in decimal,
/// text unchanged.
pub open spec fn stored_text(field: Seq<char>, value: Seq<char>) -> Seq<char> {
    if is_count_field(field) {
        match usize_of_text(value) {
            Some(n) => decimal(n as nat),
            None => value,
        }
    } else if field == "link-digest.min-score"@ {
        match i64_of_text(value) {
            Some(n) => signed_decimal(n as int),
            None => value,
        }
    } else {
        value
    }
}

impl Default for AppConfig {
    /// The default identity, services and digest settings.
    fn default() -> (r: Self)
        ensures
            r.identity.identifier@ == default_identifier(),
            r.services.public_api_base@ == default_public_api_base(),
            r.services.plc_directory_base@ == default_plc_directory_base(),
            r.link_digest.follow_poll_cron@ == default_follow_poll_cron(),
            r.link_digest.limit == 20,
            r.link_digest.min_score == 0,
            r.link_digest.min_shares == 1,
    {
        AppConfig {
            identity: IdentityConfig::default(),
            services: ServiceConfig::default(),
            link_digest: LinkDigestConfig::default(),
        }
    }
}

impl AppConfig {
    /// The names of the fields that can be set, in the order `config set` lists them.
    pub fn field_names() -> (r: Vec<String>)
        ensures
            r@.len() == 7,
            r@[0]@ == "identity.identifier"@,
            r@[1]@ == "link-digest.follow-poll-cron"@,
            r@[2]@ == "link-digest.limit"@,
            r@[3]@ == "link-digest.min-score"@,
            r@[4]@ == "link-digest.min-shares"@,
            r@[5]@ == "services.public-api-base"@,
            r@[6]@ == "services.plc-directory-base"@,
    {
        let mut r: Vec<String> = Vec::new();
        r.push(String::from_str("identity.identifier"));
        r.push(String::from_str("link-digest.follow-poll-cron"));
        r.push(String::from_str("link-digest.limit"));
        r.push(String::from_str("link-digest.min-score"));
        r.push(String::from_str("link-digest.min-shares"));
        r.push(String::from_str("services.public-api-base"));
        r.push(String::from_str("services.plc-directory-base"));
        r
    }

    /// Sets a known field to `value`, a number field only to a whole number in its range; an
    /// unknown field or a value that is not such a number is refused, and nothing changes.
    pub fn set_field(&mut self, field: &str, value: String) -> (r: Result<(), ConfigError>)
        ensures
            match with_field(*old(self), field@, value) {
                Some(c) => r is Ok && *final(self) == c,
                None => r is Err && *final(self) == *old(self),
            },
            r matches Err(e) ==> if is_config_field(field@) {
                e matches ConfigError::InvalidNumber { field: f, value: v } && f@ == field@ && v@ == value@
            } else {
                e matches ConfigError::UnknownField(f) && f@ == field@
            },
    {
        if str_eq(field, "identity.identifier") {
            self.identity.identifier = value;
        } else if str_eq(field, "link-digest.follow-poll-cron") {
            self.link_digest.follow_poll_cron = value;
        } else if str_eq(field, "link-digest.limit") {
            match parse_usize(value.as_str()) {
                Some(n) => self.link_digest.limit = n,
                None => return Err(ConfigError::InvalidNumber { field: copy_str(field), value }),
            }
        } else if str_eq(field, "link-digest.min-score") {
            match parse_i64(value.as_str()) {
                Some(n) => self.link_digest.min_score = n,
                None => return Err(ConfigError::InvalidNumber { field: copy_str(field), value }),
            }
        } else if str_eq(field, "link-digest.min-shares") {
            match parse_usize(value.as_str()) {
                Some(n) => self.link_digest.min_shares = n,
                None => return Err(ConfigError::InvalidNumber { field: copy_str(field), value }),
            }
        } else if str_eq(field, "services.public-api-base") {
            self.services.public_api_base = value;
        } else if str_eq(field, "services.plc-directory-base") {
            self.services.plc_directory_base = value;
        } else {
            return Err(ConfigError::UnknownField(copy_str(field)));
        }
        Ok(())
    }

    /// The value of a known field, numbers written in decimal; an unknown field is refused.
    pub fn get_field(&self, field: &str) -> (r: Result<String, ConfigError>)
        ensures
            is_config_field(field@) <==> r is Ok,
            r matches Ok(v) ==> v@ == field_value(*self, field@),
            r matches Err(e) ==> e matches ConfigError::UnknownField(f) && f@ == field@,
    {
        if str_eq(field, "identity.identifier") {
            Ok(copy_str(self.identity.identifier.as_str()))
        } else if str_eq(field, "link-digest.follow-poll-cron") {
            Ok(copy_str(self.link_digest.follow_poll_cron.as_str()))
        } else if str_eq(field, "link-digest.limit") {
            Ok(usize_to_decimal(self.link_digest.limit))
        } else if str_eq(field, "link-digest.min-score") {
            Ok(i64_to_decimal(self.link_digest.min_score))
        } else if str_eq(field, "link-digest.min-shares") {
            Ok(usize_to_decimal(self.link_digest.min_shares))
        } else if str_eq(field, "services.public-api-base") {
            Ok(copy_str(self.services.public_api_base.as_str()))
        } else if str_eq(field, "services.plc-directory-base") {
            Ok(copy_str(self.services.plc_directory_base.as_str()))
        } else {
            Err(ConfigError::UnknownField(copy_str(field)))
        }
    }
}

/// The configuration after setting `field` to `value` in `c`; `None` for an unknown field, or
/// for a number field given text that is not a whole number in its range.
pub open spec fn with_field(c: AppConfig, field: Seq<char>, value: String) -> Option<AppConfig> {
    if field == "identity.identifier"@ {
        Some(AppConfig { identity: IdentityConfig { identifier: value }, ..c })
    } else if field == "link-digest.follow-poll-cron"@ {
        Some(AppConfig { link_digest: LinkDigestConfig { follow_poll_cron: value, ..c.link_digest }, ..c })
    } else if field == "link-digest.limit"@ {
        match usize_of_text(value@) {
            Some(n) => Some(AppConfig { link_digest: LinkDigestConfig { limit: n, ..c.link_digest }, ..c }),
            None => None,
        }
    } else if field == "link-digest.min-score"@ {
        match i64_of_text(value@) {
            Some(n) => Some(AppConfig { link_digest: LinkDigestConfig { min_score: n, ..c.link_digest }, ..c }),
            None => None,
        }
    } else if field == "link-digest.min-shares"@ {
        match usize_of_text(value@) {
            Some(n) => Some(AppConfig { link_digest: LinkDigestConfig { min_shares: n, ..c.link_digest }, ..c }),
            None => None,
        }
    } else if field == "services.public-api-base"@ {
        Some(AppConfig { services: ServiceConfig { public_api_base: value, ..c.services }, ..c })
    } else if field == "services.plc-directory-base"@ {
        Some(AppConfig { services: ServiceConfig { plc_directory_base: value, ..c.services }, ..c })
    } else {
        None
    }
}

/// The field names differ in length, so no two of them are equal.
proof fn lemma_field_name_lengths()
    ensures
        "identity.identifier"@.len() == 19,
        "link-digest.follow-poll-cron"@.len() == 28,
        "link-digest.limit"@.len() == 17,
        "link-digest.min-score"@.len() == 21,
        "link-digest.min-shares"@.len() == 22,
        "services.public-api-base"@.len() == 24,
        "services.plc-directory-base"@.len() == 27,
{
    reveal_strlit("identity.identifier");
    reveal_strlit("link-digest.follow-poll-cron");
    reveal_strlit("link-digest.limit");
    reveal_strlit("link-digest.min-score");
    reveal_strlit("link-digest.min-shares");
    reveal_strlit("services.public-api-base");
    reveal_strlit("services.plc-directory-base");
}

/// Reading a field after setting it gives the value set, as the field shows it: text exactly,
/// a number in decimal.
pub proof fn lemma_get_after_set(c: AppConfig, field: Seq<char>, value: String)
    requires
        with_field(c, field, value) is Some,
    ensures
        is_config_field(field),
        field_value(with_field(c, field, value).unwrap(), field) == stored_text(field, value@),
{
    lemma_field_name_lengths();
}

/// A number written in decimal is stored and shown as written: setting `link-digest.limit` to
/// `"20"` reads back `"20"`, and the same for the other number fields.
pub proof fn lemma_numbers_read_back(field: Seq<char>, n: int)
    ensures
        is_count_field(field) && 0 <= n <= usize::MAX ==> usize_of_text(decimal(n as nat)) == Some(n as usize)
            && stored_text(field, decimal(n as nat)) == decimal(n as nat),
        field == "link-digest.min-score"@ && i64::MIN <= n <= i64::MAX ==> i64_of_text(signed_decimal(n)) == Some(
            n as i64,
        ) && stored_text(field, signed_decimal(n)) == signed_decimal(n),
{
    lemma_field_name_lengths();
    if 0 <= n {
        lemma_decimal_reads_back(n as nat);
    }
    lemma_signed_decimal_reads_back(n);
}

/// A number field accepts exactly the text that reads as a whole number in its range, and
/// refuses the rest.
pub proof fn lemma_number_fields_checked(c: AppConfig, field: Seq<char>, value: String)
    ensures
        is_count_field(field) ==> (with_field(c, field, value) is Some <==> usize_of_text(value@) is Some),
        field == "link-digest.min-score"@ ==> (with_field(c, field, value) is Some <==> i64_of_text(value@) is Some),
{
    lemma_field_name_lengths();
}

/// Setting a field leaves every other field as it was.
pub proof fn lemma_set_leaves_others(c: AppConfig, field: Seq<char>, other: Seq<char>, value: String)
    requires
        with_field(c, field, value) is Some,
        is_config_field(other),
        field != other,
    ensures
        field_value(with_field(c, field, value).unwrap(), other) == field_value(c, other),
{
    lemma_field_name_lengths();
}

/// Setting a field twice is setting it once to the second value.
pub proof fn lemma_set_twice(c: AppConfig, field: Seq<char>, first: String, second: String)
    requires
        with_field(c, field, first) is Some,
    ensures
        with_field(with_field(c, field, first).unwrap(), field, second) == with_field(c, field, second),
{
    lemma_field_name_lengths();
}

/// Where the configuration file lives by default: under `$XDG_CONFIG_HOME`, else under
/// `$HOME/.config`, in `atproto-tools/config.toml`; `None` without either variable.
pub open spec fn default_config_path_of(xdg_config_home: Option<Seq<char>>, home: Option<Seq<char>>) -> Option<Seq<char>> {
    let base = match xdg_config_home {
        Some(x) => Some(x),
        None => match home {
            Some(h) => Some(path_join(h, ".config"@)),
            None => None,
        },
    };
    match base {
        Some(b) => Some(path_join(path_join(b, "atproto-tools"@), "config.toml"@)),
        None => None,
    }
}

pub open spec fn opt_str_view(o: Option<&str>) -> Option<Seq<char>> {
    match o {
        Some(s) => Some(s@),
        None => None,
    }
}

/// The default configuration file: under `XDG_CONFIG_HOME`, else under `HOME/.config`.
pub fn default_config_path(xdg_config_home: Option<&str>, home: Option<&str>) -> (r: Option<String>)
    ensures
        match r {
            Some(p) => default_config_path_of(opt_str_view(xdg_config_home), opt_str_view(home)) == Some(p@),
            None => default_config_path_of(opt_str_view(xdg_config_home), opt_str_view(home)) is None,
        },
{
    let base = match xdg_config_home {
        Some(x) => copy_str(x),
        None => match home {
            Some(h) => join_path(h, ".config"),
            None => return None,
        },
    };
    let dir = join_path(base.as_str(), "atproto-tools");
    Some(join_path(dir.as_str(), "config.toml"))
}

/// The configuration file to use: the one given, else the default location.
pub fn resolve_config_path(path: Option<String>, xdg_config_home: Option<&str>, home: Option<&str>) -> (r: Option<String>)
    ensures
        match path {
            Some(p) => r == Some(p),
            None => match r {
                Some(q) => default_config_path_of(opt_str_view(xdg_config_home), opt_str_view(home)) == Some(q@),
                None => default_config_path_of(opt_str_view(xdg_config_home), opt_str_view(home)) is None,
            },
        },
{
    match path {
        Some(p) => Some(p),
        None => default_config_path(xdg_config_home, home),
    }
}

} // verus!
