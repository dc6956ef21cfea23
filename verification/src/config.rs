//! Global and session configuration, and the rules that resolve them:
//! a missing file gives the defaults, a session setting overrides the
//! global one.
//!
//! Reading and deserializing the files is the caller's; what it found is
//! handed to [`GlobalConfig::load`] and [`SessionConfig::load`].

use vstd::prelude::*;

use crate::error::{concat_str, CoreError};

verus! {

/// Default values used when no config file exists.
pub const DEFAULT_LANGUAGE: &'static str = "ru";

pub const DEFAULT_MODEL_DIR: &'static str = "./models";

pub const DEFAULT_LOG_LEVEL: &'static str = "info";

pub const DEFAULT_CHUNK_SIZE: usize = 10;

pub const DEFAULT_DICT_PATH: &'static str = ".data/dict.opcorpora.sqlite3.db";

pub const DEFAULT_PG_URL: &'static str = "";

/// Global configuration (`config.json` in the user's configuration
/// directory).
#[derive(Debug, Clone)]
pub struct GlobalConfig {
    pub default_language: String,
    pub model_dir: String,
    pub log_level: String,
    pub batch_chunk_size: usize,
    pub dict_path: String,
    pub postgres_url: String,
}

/// The default language: `ru`.
pub fn default_language() -> (s: String)
    ensures
        s@ == DEFAULT_LANGUAGE@,
{
    String::from_str(DEFAULT_LANGUAGE)
}

/// The default model directory: `./models`.
pub fn default_model_dir() -> (s: String)
    ensures
        s@ == DEFAULT_MODEL_DIR@,
{
    String::from_str(DEFAULT_MODEL_DIR)
}

/// The default log level: `info`.
pub fn default_log_level() -> (s: String)
    ensures
        s@ == DEFAULT_LOG_LEVEL@,
{
    String::from_str(DEFAULT_LOG_LEVEL)
}

/// The default number of words per batch chunk: 10.
pub fn default_chunk_size() -> (n: usize)
    ensures
        n == DEFAULT_CHUNK_SIZE,
{
    DEFAULT_CHUNK_SIZE
}

/// The default dictionary path.
pub fn default_dict_path() -> (s: String)
    ensures
        s@ == DEFAULT_DICT_PATH@,
{
    String::from_str(DEFAULT_DICT_PATH)
}

/// The default PostgreSQL URL: empty.
pub fn default_pg_url() -> (s: String)
    ensures
        s@ == DEFAULT_PG_URL@,
{
    String::from_str(DEFAULT_PG_URL)
}

/// The global configuration that holds every default.
pub open spec fn is_default_global(c: GlobalConfig) -> bool {
    &&& c.default_language@ == DEFAULT_LANGUAGE@
    &&& c.model_dir@ == DEFAULT_MODEL_DIR@
    &&& c.log_level@ == DEFAULT_LOG_LEVEL@
    &&& c.batch_chunk_size == DEFAULT_CHUNK_SIZE
    &&& c.dict_path@ == DEFAULT_DICT_PATH@
    &&& c.postgres_url@ == DEFAULT_PG_URL@
}

impl Default for GlobalConfig {
    fn default() -> (c: GlobalConfig)
        ensures
            is_default_global(c),
    {
        GlobalConfig {
            default_language: default_language(),
            model_dir: default_model_dir(),
            log_level: default_log_level(),
            batch_chunk_size: default_chunk_size(),
            dict_path: default_dict_path(),
            postgres_url: default_pg_url(),
        }
    }
}

/// What the caller found of a configuration file.
pub enum ConfigFile<T> {
    /// There is no such file.
    Missing,
    /// The file could not be read; the text of the error.
    ReadFailed(String),
    /// The file was read and parsed.
    Parsed(T),
    /// The file was read but did not parse; the text of the error.
    ParseFailed(String),
}

/// The text of the error for a file at `path` that could not be read.
pub open spec fn read_error_text(path: Seq<char>, e: Seq<char>) -> Seq<char> {
    "failed to read "@ + path + ": "@ + e
}

/// `prefix`, `path`, `middle` and `e` in turn.
fn message_about(prefix: &str, path: &str, middle: &str, e: &str) -> (s: String)
    ensures
        s@ == prefix@ + path@ + middle@ + e@,
{
    let mut s = concat_str(prefix, path);
    s.append(middle);
    s.append(e);
    s
}

impl GlobalConfig {
    /// The global configuration from what the caller found of the file at
    /// `path`: the defaults when there is no file, the parsed content
    /// otherwise, a configuration error when it could not be read or parsed.
    pub fn load(path: &str, file: ConfigFile<GlobalConfig>) -> (r: Result<GlobalConfig, CoreError>)
        ensures
            match file {
                ConfigFile::Missing => r matches Ok(c) && is_default_global(c),
                ConfigFile::Parsed(c) => r == Ok::<GlobalConfig, CoreError>(c),
                ConfigFile::ReadFailed(e) => exists|m: String|
                    r == Err::<GlobalConfig, CoreError>(CoreError::ConfigError(m)) && m@
                        == read_error_text(path@, e@),
                ConfigFile::ParseFailed(e) => exists|m: String|
                    r == Err::<GlobalConfig, CoreError>(CoreError::ConfigError(m)) && m@
                        == "failed to parse "@ + path@ + ": "@ + e@,
            },
    {
        match file {
            ConfigFile::Missing => Ok(GlobalConfig::default()),
            ConfigFile::Parsed(c) => Ok(c),
            ConfigFile::ReadFailed(e) => Err(
                CoreError::ConfigError(message_about("failed to read ", path, ": ", e.as_str())),
            ),
            ConfigFile::ParseFailed(e) => Err(
                CoreError::ConfigError(message_about("failed to parse ", path, ": ", e.as_str())),
            ),
        }
    }
}

impl GlobalConfig {
    /// The number of words batch mode looks up and writes at a time: the
    /// configured `batch_chunk_size`, or the default when that is 0 (a
    /// chunk must hold a word).
    pub fn chunk_size(&self) -> (n: usize)
        ensures
            n == (if self.batch_chunk_size == 0 {
                DEFAULT_CHUNK_SIZE
            } else {
                self.batch_chunk_size
            }),
            n > 0,
    {
        if self.batch_chunk_size == 0 {
            DEFAULT_CHUNK_SIZE
        } else {
            self.batch_chunk_size
        }
    }
}

/// Session-level configuration (`.trconf` next to the analyzed file).
#[derive(Debug, Clone)]
pub struct SessionConfig {
    pub language: Option<String>,
    pub last_cursor_position: Option<CursorPosition>,
    pub ui_preferences: Option<UiPreferences>,
}

/// A cursor position within a text.
#[derive(Debug, Clone, Copy)]
pub struct CursorPosition {
    pub line: usize,
    pub word_index: usize,
}

/// Preferences of the interactive interface.
#[derive(Debug, Clone)]
pub struct UiPreferences {
    pub theme: String,
}

impl Default for SessionConfig {
    fn default() -> (c: SessionConfig)
        ensures
            c.language is None,
            c.last_cursor_position is None,
            c.ui_preferences is None,
    {
        SessionConfig { language: None, last_cursor_position: None, ui_preferences: None }
    }
}

/// What the caller found of a session file.
pub enum SessionFile {
    /// There is no such file.
    Missing,
    /// The file could not be read; the text of the error.
    ReadFailed(String),
    /// The file was read: what reading it as JSON gave and, when that
    /// failed, what reading it as YAML gave.
    Read(Result<SessionConfig, String>, Option<Result<SessionConfig, String>>),
}

impl SessionConfig {
    /// The session configuration from what the caller found of the file
    /// at `path`: the defaults when there is no file; the JSON reading of
    /// it when that succeeds, else its YAML reading; a configuration error
    /// when it cannot be read or is neither JSON nor YAML.
    pub fn load(path: &str, file: SessionFile) -> (r: Result<SessionConfig, CoreError>)
        requires
            file matches SessionFile::Read(Err(_), yaml) ==> yaml is Some,
        ensures
            match file {
                SessionFile::Missing => r matches Ok(c) && c.language is None
                    && c.last_cursor_position is None && c.ui_preferences is None,
                SessionFile::ReadFailed(e) => exists|m: String|
                    r == Err::<SessionConfig, CoreError>(CoreError::ConfigError(m)) && m@
                        == read_error_text(path@, e@),
                SessionFile::Read(Ok(c), _) => r == Ok::<SessionConfig, CoreError>(c),
                SessionFile::Read(Err(_), Some(Ok(c))) => r == Ok::<SessionConfig, CoreError>(c),
                SessionFile::Read(Err(_), Some(Err(e))) => exists|m: String|
                    r == Err::<SessionConfig, CoreError>(CoreError::ConfigError(m)) && m@
                        == "failed to parse "@ + path@ + " as JSON or YAML: "@ + e@,
                SessionFile::Read(Err(_), None) => false,
            },
    {
        match file {
            SessionFile::Missing => Ok(SessionConfig::default()),
            SessionFile::ReadFailed(e) => Err(
                CoreError::ConfigError(message_about("failed to read ", path, ": ", e.as_str())),
            ),
            SessionFile::Read(Ok(c), _) => Ok(c),
            SessionFile::Read(Err(_), Some(Ok(c))) => Ok(c),
            SessionFile::Read(Err(_), Some(Err(e))) => Err(
                CoreError::ConfigError(
                    message_about("failed to parse ", path, " as JSON or YAML: ", e.as_str()),
                ),
            ),
            SessionFile::Read(Err(_), None) => {
                proof {
                    assert(false);
                }
                Err(CoreError::ConfigError(String::new()))
            },
        }
    }

    /// The language to analyze in: the session's, else the global default.
    pub fn resolve_language(&self, global: &GlobalConfig) -> (s: String)
        ensures
            s@ == match self.language {
                Some(l) => l@,
                None => global.default_language@,
            },
    {
        match &self.language {
            Some(l) => l.clone(),
            None => global.default_language.clone(),
        }
    }
}

/// The language resolved with no session language and the default global
/// configuration is the default language.
pub proof fn law_language_falls_back_to_default(session: SessionConfig, global: GlobalConfig)
    requires
        session.language is None,
        is_default_global(global),
    ensures
        (match session.language {
            Some(l) => l@,
            None => global.default_language@,
        }) == DEFAULT_LANGUAGE@,
{
}

/// The name of the global configuration file.
pub const CONFIG_FILE_NAME: &'static str = "config.json";

/// The file that writing the default configuration goes to:
/// `config.json`, or `config.json.<stamp>` when `config.json` exists
/// already, so that nothing is overwritten.
pub fn init_config_name(exists: bool, stamp: &str) -> (s: String)
    ensures
        s@ == (if exists {
            CONFIG_FILE_NAME@ + "."@ + stamp@
        } else {
            CONFIG_FILE_NAME@
        }),
{
    if exists {
        let mut s = concat_str(CONFIG_FILE_NAME, ".");
        s.append(stamp);
        s
    } else {
        String::from_str(CONFIG_FILE_NAME)
    }
}

/// The file that the notes on the configuration's fields go to:
/// `config.json.txt.<stamp>`.
pub fn init_notes_name(stamp: &str) -> (s: String)
    ensures
        s@ == CONFIG_FILE_NAME@ + ".txt."@ + stamp@,
{
    let mut s = concat_str(CONFIG_FILE_NAME, ".txt.");
    s.append(stamp);
    s
}

} // verus!
