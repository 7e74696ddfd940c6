//! The user's settings: their defaults and the limits within which they
//! can be set.

use crate::config::cache::DEFAULT_MAX_SIZE;
use crate::config::cache::MAX_SIZE;
use crate::config::cache::MIN_SIZE;
use crate::text::decimal;
use crate::text::same_text;
use crate::text::to_decimal;
use vstd::prelude::*;

verus! {

/// The theme when none was chosen: follow the system.
pub fn default_theme() -> (theme: String)
    ensures
        theme@ == "auto"@,
{
    "auto".to_owned()
}

/// The language when none was chosen: follow the system.
pub fn default_language() -> (language: String)
    ensures
        language@ == "auto"@,
{
    "auto".to_owned()
}

/// The message of the day is shown unless the user turned it off.
pub fn default_show_motd() -> (show: bool)
    ensures
        show,
{
    true
}

/// The updater's notice is shown unless the user turned it off.
pub fn default_show_updater_modal() -> (show: bool)
    ensures
        show,
{
    true
}

/// Developer mode is off unless the user turned it on.
pub fn default_developer_mode() -> (enabled: bool)
    ensures
        !enabled,
{
    false
}

/// Downloaded images are cached unless the user turned that off.
pub fn default_cache_enabled() -> (enabled: bool)
    ensures
        enabled,
{
    true
}

/// The cache may grow to 20 GiB unless the user set another limit.
pub fn default_cache_max_size() -> (size: u64)
    ensures
        size == DEFAULT_MAX_SIZE,
        MIN_SIZE <= size <= MAX_SIZE,
{
    DEFAULT_MAX_SIZE
}

/// A value as the settings store holds it.
#[derive(Debug)]
pub enum StoredValue {
    Text(String),
    Flag(bool),
    Number(u64),
    /// Anything else that the store can hold.
    Other,
}

/// The text that a stored value stands for: the value if it is a text,
/// `fallback` if it is of another kind.
pub open spec fn text_of(stored: StoredValue, fallback: Seq<char>) -> Seq<char> {
    match stored {
        StoredValue::Text(text) => text@,
        _ => fallback,
    }
}

/// The flag that a stored value stands for, or `fallback`.
pub open spec fn flag_of(stored: StoredValue, fallback: bool) -> bool {
    match stored {
        StoredValue::Flag(flag) => flag,
        _ => fallback,
    }
}

/// The number that a stored value stands for, or `fallback`.
pub open spec fn number_of(stored: StoredValue, fallback: u64) -> u64 {
    match stored {
        StoredValue::Number(number) => number,
        _ => fallback,
    }
}

/// Key of the theme in the settings store.
pub const THEME_KEY: &'static str = "theme";

/// Key of the language in the settings store.
pub const LANGUAGE_KEY: &'static str = "language";

/// Key of the setting that shows the message of the day.
pub const SHOW_MOTD_KEY: &'static str = "show_motd";

/// Key of the setting that shows the updater's notice.
pub const SHOW_UPDATER_MODAL_KEY: &'static str = "show_updater_modal";

/// Key of the developer mode.
pub const DEVELOPER_MODE_KEY: &'static str = "developer_mode";

/// Key of the setting that turns the cache on.
pub const CACHE_ENABLED_KEY: &'static str = "cache_enabled";

/// Key of the cache limit.
pub const CACHE_MAX_SIZE_KEY: &'static str = "cache_max_size";

/// The theme that is set: what is stored under the theme's key, `auto` if
/// nothing is stored or what is stored is no text.
pub fn get_theme(stored: Option<&StoredValue>) -> (theme: String)
    ensures
        theme@ == match stored {
            Some(value) => text_of(*value, "auto"@),
            None => "auto"@,
        },
{
    match stored {
        Some(StoredValue::Text(text)) => text.clone(),
        Some(_) => "auto".to_owned(),
        None => default_theme(),
    }
}

/// The language that is set, `auto` if none is.
pub fn get_language(stored: Option<&StoredValue>) -> (language: String)
    ensures
        language@ == match stored {
            Some(value) => text_of(*value, "auto"@),
            None => "auto"@,
        },
{
    match stored {
        Some(StoredValue::Text(text)) => text.clone(),
        Some(_) => "auto".to_owned(),
        None => default_language(),
    }
}

/// Is the message of the day shown?  It is unless a flag is stored that
/// says no.
pub fn get_show_motd(stored: Option<&StoredValue>) -> (show: bool)
    ensures
        show == match stored {
            Some(value) => flag_of(*value, true),
            None => true,
        },
{
    match stored {
        Some(StoredValue::Flag(flag)) => *flag,
        Some(_) => true,
        None => default_show_motd(),
    }
}

/// Is the updater's notice shown?  It is unless a flag is stored that says
/// no.
pub fn get_show_updater_modal(stored: Option<&StoredValue>) -> (show: bool)
    ensures
        show == match stored {
            Some(value) => flag_of(*value, true),
            None => true,
        },
{
    match stored {
        Some(StoredValue::Flag(flag)) => *flag,
        Some(_) => true,
        None => default_show_updater_modal(),
    }
}

/// Is developer mode on?  It is only if a flag is stored that says so.
pub fn get_developer_mode(stored: Option<&StoredValue>) -> (enabled: bool)
    ensures
        enabled == match stored {
            Some(value) => flag_of(*value, false),
            None => false,
        },
{
    match stored {
        Some(StoredValue::Flag(flag)) => *flag,
        Some(_) => default_developer_mode(),
        None => default_developer_mode(),
    }
}

/// Are downloaded images cached?  They are unless a flag is stored that
/// says no.
pub fn get_cache_enabled(stored: Option<&StoredValue>) -> (enabled: bool)
    ensures
        enabled == match stored {
            Some(value) => flag_of(*value, true),
            None => true,
        },
{
    match stored {
        Some(StoredValue::Flag(flag)) => *flag,
        Some(_) => default_cache_enabled(),
        None => default_cache_enabled(),
    }
}

/// The limit of the cache in bytes: the number that is stored, 20 GiB if
/// none is.
pub fn get_cache_max_size(stored: Option<&StoredValue>) -> (size: u64)
    ensures
        size == match stored {
            Some(value) => number_of(*value, DEFAULT_MAX_SIZE),
            None => DEFAULT_MAX_SIZE,
        },
{
    match stored {
        Some(StoredValue::Number(number)) => *number,
        Some(_) => default_cache_max_size(),
        None => default_cache_max_size(),
    }
}

/// Why a setting was not accepted.
#[derive(Debug, Clone, Copy, PartialEq, Eq, Structural)]
pub enum SettingsError {
    /// The cache limit is below 1 GiB.
    CacheSizeTooSmall { size: u64 },
    /// The cache limit is above 100 GiB.
    CacheSizeTooLarge { size: u64 },
}

impl SettingsError {
    /// What the error says, in words.
    pub open spec fn text(self) -> Seq<char> {
        match self {
            SettingsError::CacheSizeTooSmall { size } => "Cache size too small: "@ + decimal(
                size as nat,
            ) + " bytes (minimum: "@ + decimal(MIN_SIZE as nat) + " bytes / 1 GB)"@,
            SettingsError::CacheSizeTooLarge { size } => "Cache size too large: "@ + decimal(
                size as nat,
            ) + " bytes (maximum: "@ + decimal(MAX_SIZE as nat) + " bytes / 100 GB)"@,
        }
    }

    /// The error as a message for the user.
    pub fn message(&self) -> (message: String)
        ensures
            message@ == self.text(),
    {
        match self {
            SettingsError::CacheSizeTooSmall { size } => {
                let mut message = "Cache size too small: ".to_owned();
                let number = to_decimal(*size);
                message.append(number.as_str());
                message.append(" bytes (minimum: ");
                let limit = to_decimal(MIN_SIZE);
                message.append(limit.as_str());
                message.append(" bytes / 1 GB)");
                message
            },
            SettingsError::CacheSizeTooLarge { size } => {
                let mut message = "Cache size too large: ".to_owned();
                let number = to_decimal(*size);
                message.append(number.as_str());
                message.append(" bytes (maximum: ");
                let limit = to_decimal(MAX_SIZE);
                message.append(limit.as_str());
                message.append(" bytes / 100 GB)");
                message
            },
        }
    }
}

/// Accepts a limit for the cache if it lies between 1 GiB and 100 GiB.
/// Nothing is evicted and nothing is stored for a limit that is refused.
pub fn validate_cache_max_size(size: u64) -> (result: Result<(), SettingsError>)
    ensures
        result == if size < MIN_SIZE {
            Err::<(), SettingsError>(SettingsError::CacheSizeTooSmall { size })
        } else if size > MAX_SIZE {
            Err(SettingsError::CacheSizeTooLarge { size })
        } else {
            Ok(())
        },
{
    if size < MIN_SIZE {
        Err(SettingsError::CacheSizeTooSmall { size })
    } else if size > MAX_SIZE {
        Err(SettingsError::CacheSizeTooLarge { size })
    } else {
        Ok(())
    }
}

/// The system that the application runs on, as it is shown to the user.
#[derive(Debug)]
pub struct SystemInfo {
    pub platform: String,
    pub arch: String,
}

/// The name under which a processor architecture is shown.
pub open spec fn shown_arch(arch: Seq<char>) -> Seq<char> {
    if arch == "x86_64"@ {
        "x64"@
    } else if arch == "aarch64"@ {
        "ARM64"@
    } else if arch == "arm"@ {
        "ARM"@
    } else {
        arch
    }
}

/// The platform and the architecture of the system, the architecture under
/// the name that users know it by.
pub fn get_system_info(os: &str, arch: &str) -> (info: SystemInfo)
    ensures
        info.platform@ == os@,
        info.arch@ == shown_arch(arch@),
{
    let shown = if same_text(arch, "x86_64") {
        "x64".to_owned()
    } else if same_text(arch, "aarch64") {
        "ARM64".to_owned()
    } else if same_text(arch, "arm") {
        "ARM".to_owned()
    } else {
        arch.to_owned()
    };
    SystemInfo { platform: os.to_owned(), arch: shown }
}

/// A log file larger than this is shown by its last lines only: 5 MiB.
pub const MAX_LOG_SIZE: u64 = 5 * 1024 * 1024;

/// How many lines of a large log file are shown.
pub const MAX_LOG_LINES: usize = 10000;

/// The lines `lines[from..]` joined by line feeds.
pub open spec fn joined_lines(lines: Seq<String>, from: int) -> Seq<char>
    decreases lines.len() - from,
{
    if from >= lines.len() {
        Seq::empty()
    } else if from == lines.len() - 1 {
        lines[from]@
    } else {
        lines[from]@ + seq!['\n'] + joined_lines(lines, from + 1)
    }
}

/// The last `count` of the given lines, or all of them if there are fewer,
/// joined by line feeds.
pub fn read_last_lines(lines: &Vec<String>, count: usize) -> (text: String)
    ensures
        text@ == joined_lines(
            lines@,
            if lines.len() > count {
                lines.len() - count
            } else {
                0
            },
        ),
{
    let start: usize = if lines.len() > count {
        lines.len() - count
    } else {
        0
    };
    let mut text = String::new();
    let mut i: usize = lines.len();
    while i > start
        invariant
            start <= i <= lines.len(),
            text@ == joined_lines(lines@, i as int),
        decreases i,
    {
        i -= 1;
        let mut line = lines[i].clone();
        if i + 1 < lines.len() {
            line.push('\n');
            line.append(text.as_str());
        }
        proof {
            assert(lines[i as int]@ + seq!['\n'] =~= lines[i as int]@.push('\n'));
        }
        text = line;
    }
    text
}

/// Is a log file of this size shown by its last lines only?
pub fn is_large_log(size: u64) -> (large: bool)
    ensures
        large == (size > MAX_LOG_SIZE),
{
    size > MAX_LOG_SIZE
}

} // verus!
