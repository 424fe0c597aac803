//! The repository settings and their INI form.
use vstd::prelude::*;
use vstd::utf8::{decode_utf8, valid_utf8};
use ini::{Ini, LineSeparator, WriteOption};
use crate::codec::{decimal, decimal_bytes};
use crate::number::{parse_i32, read_i32};
use crate::text::{same_text, text_of, utf8_text};

verus! {

/// Why a configuration is refused.
#[derive(Clone, Copy, Debug, PartialEq, Eq, Structural)]
pub enum ConfigError {
    /// The repository format version is not zero.
    UnsupportedRepositoryFormatVersion,
    /// The configuration text cannot be read, or a setting of the `core`
    /// section is missing or ill-formed.
    Malformed,
}

/// The settings of a repository.
#[derive(Debug)]
pub struct Config {
    bare: bool,
    repository_format_version: i32,
    file_mode: bool,
}

/// The settings of a repository, as values.
pub struct ConfigModel {
    pub bare: bool,
    pub repository_format_version: int,
    pub file_mode: bool,
}

/// The INI document that holds the given settings, each a section, a key
/// and a value, set in order in an empty document.
pub uninterp spec fn ini_document(settings: Seq<(Seq<char>, Seq<char>, Seq<char>)>) -> Seq<u8>;

/// What an INI text holds under a key of a section: nothing at all when
/// the text is not a well-formed document, and no value when the section
/// or the key is absent from it.
pub uninterp spec fn ini_value(text: Seq<char>, section: Seq<char>, key: Seq<char>) -> Option<
    Option<Seq<char>>,
>;

/// The settings as values.
pub open spec fn settings_of(list: Seq<(String, String, String)>) -> Seq<
    (Seq<char>, Seq<char>, Seq<char>),
> {
    Seq::new(list.len(), |i: int| (list[i].0@, list[i].1@, list[i].2@))
}

/// Builds a document with `ini::Ini::new`, sets each setting with
/// `Ini::set_to` and writes it with `Ini::write_to_opt`, with `\n` as the
/// line separator: the result is the document of those settings.
#[verifier::external_body]
pub(crate) fn render_ini(settings: &Vec<(String, String, String)>) -> (out: Vec<u8>)
    ensures
        out@ == ini_document(settings_of(settings@)),
{
    let mut document = Ini::new();
    for (section, key, value) in settings.iter() {
        document.set_to(Some(section.as_str()), key.clone(), value.clone());
    }
    let mut out = Vec::new();
    let option = WriteOption { line_separator: LineSeparator::CR, ..Default::default() };
    let _ = document.write_to_opt(&mut out, option);
    out
}

/// Parses a text with `ini::Ini::load_from_str` and looks a key up with
/// `Ini::get_from`: the result is what the text holds under that key.
#[verifier::external_body]
pub(crate) fn ini_lookup(text: &str, section: &str, key: &str) -> (r: Option<Option<String>>)
    ensures
        match r {
            None => ini_value(text@, section@, key@) is None,
            Some(None) => ini_value(text@, section@, key@) == Some(None::<Seq<char>>),
            Some(Some(v)) => ini_value(text@, section@, key@) == Some(Some(v@)),
        },
{
    match Ini::load_from_str(text) {
        Ok(document) => Some(document.get_from(Some(section), key).map(|v| v.to_string())),
        Err(_) => None,
    }
}

/// The text of a truth value.
pub open spec fn bool_text(b: bool) -> Seq<char> {
    if b {
        "true"@
    } else {
        "false"@
    }
}

/// The truth value that a text names.
pub open spec fn parse_bool(s: Seq<char>) -> Option<bool> {
    if s == "true"@ {
        Some(true)
    } else if s == "false"@ {
        Some(false)
    } else {
        None
    }
}

/// The characters of ASCII bytes.
pub open spec fn ascii_chars(bytes: Seq<u8>) -> Seq<char> {
    Seq::new(bytes.len(), |i: int| bytes[i] as char)
}

/// The decimal text of an integer, with a minus sign when it is negative.
pub open spec fn int_text(v: int) -> Seq<char> {
    if v < 0 {
        seq!['-'] + ascii_chars(decimal((-v) as nat))
    } else {
        ascii_chars(decimal(v as nat))
    }
}

/// The settings that a configuration text holds. The format version is
/// read and judged first.
pub open spec fn parse_config(text: Seq<char>) -> Result<ConfigModel, ConfigError> {
    let version = ini_value(text, "core"@, "repositoryformatversion"@);
    let bare = ini_value(text, "core"@, "bare"@);
    let file_mode = ini_value(text, "core"@, "filemode"@);
    if !(version matches Some(Some(v)) && parse_i32(v) is Some) {
        Err(ConfigError::Malformed)
    } else if parse_i32(version.unwrap().unwrap()).unwrap() != 0 {
        Err(ConfigError::UnsupportedRepositoryFormatVersion)
    } else if !(bare matches Some(Some(b)) && parse_bool(b) is Some) {
        Err(ConfigError::Malformed)
    } else if !(file_mode matches Some(Some(f)) && parse_bool(f) is Some) {
        Err(ConfigError::Malformed)
    } else {
        Ok(
            ConfigModel {
                bare: parse_bool(bare.unwrap().unwrap()).unwrap(),
                repository_format_version: 0,
                file_mode: parse_bool(file_mode.unwrap().unwrap()).unwrap(),
            },
        )
    }
}

/// The settings that the bytes of a configuration file hold.
pub open spec fn parse_config_bytes(data: Seq<u8>) -> Result<ConfigModel, ConfigError> {
    if valid_utf8(data) {
        parse_config(decode_utf8(data))
    } else {
        Err(ConfigError::Malformed)
    }
}

/// The INI document of settings.
pub open spec fn config_document(c: ConfigModel) -> Seq<u8> {
    ini_document(
        seq![
            ("core"@, "bare"@, bool_text(c.bare)),
            ("core"@, "repositoryformatversion"@, int_text(c.repository_format_version)),
            ("core"@, "filemode"@, bool_text(c.file_mode)),
        ],
    )
}

/// Reads a truth value.
pub fn read_bool(s: &str) -> (r: Option<bool>)
    ensures
        r == parse_bool(s@),
{
    if same_text(s, "true") {
        Some(true)
    } else if same_text(s, "false") {
        Some(false)
    } else {
        None
    }
}

/// Writes a truth value.
pub fn write_bool(b: bool) -> (s: String)
    ensures
        s@ == bool_text(b),
{
    if b {
        "true".to_owned()
    } else {
        "false".to_owned()
    }
}

/// Writes an integer in decimal.
pub fn write_i32(v: i32) -> (s: String)
    ensures
        s@ == int_text(v as int),
{
    let magnitude: u32 = if v < 0 {
        (-(v as i64)) as u32
    } else {
        v as u32
    };
    let digits = decimal_bytes(magnitude as usize);
    let mut out: Vec<char> = Vec::new();
    if v < 0 {
        out.push('-');
    }
    let ghost head = out@;
    let mut i: usize = 0;
    while i < digits.len()
        invariant
            i <= digits.len(),
            out@ == head + ascii_chars(digits@).take(i as int),
        decreases digits.len() - i,
    {
        out.push(digits[i] as char);
        i = i + 1;
        assert(ascii_chars(digits@).take(i as int) =~= ascii_chars(digits@).take(i - 1).push(
            digits@[i - 1] as char,
        ));
    }
    assert(ascii_chars(digits@).take(i as int) =~= ascii_chars(digits@));
    assert(out@ =~= int_text(v as int));
    text_of(&out)
}

impl View for Config {
    type V = ConfigModel;

    closed spec fn view(&self) -> ConfigModel {
        ConfigModel {
            bare: self.bare,
            repository_format_version: self.repository_format_version as int,
            file_mode: self.file_mode,
        }
    }
}

impl Config {
    /// The settings of a fresh repository: not bare, format version zero,
    /// file modes not tracked.
    pub fn default() -> (c: Self)
        ensures
            c@ == (ConfigModel { bare: false, repository_format_version: 0, file_mode: false }),
    {
        Config { bare: false, repository_format_version: 0, file_mode: false }
    }

    /// Whether the repository has no working tree.
    pub fn is_bare(&self) -> (b: bool)
        ensures
            b == self@.bare,
    {
        self.bare
    }

    /// The repository format version.
    pub fn format_version(&self) -> (v: i32)
        ensures
            v == self@.repository_format_version,
    {
        self.repository_format_version
    }

    /// Whether file mode changes are tracked.
    pub fn tracks_file_mode(&self) -> (b: bool)
        ensures
            b == self@.file_mode,
    {
        self.file_mode
    }

    /// Reads the settings from the bytes of a configuration file.
    pub fn load(data: &[u8]) -> (r: Result<Config, ConfigError>)
        ensures
            match r {
                Ok(c) => parse_config_bytes(data@) == Ok::<ConfigModel, ConfigError>(c@),
                Err(e) => parse_config_bytes(data@) == Err::<ConfigModel, ConfigError>(e),
            },
    {
        let text = match utf8_text(data) {
            Some(t) => t,
            None => { return Err(ConfigError::Malformed); },
        };
        let version = match ini_lookup(text.as_str(), "core", "repositoryformatversion") {
            Some(Some(v)) => match read_i32(v.as_str()) {
                Some(n) => n,
                None => { return Err(ConfigError::Malformed); },
            },
            _ => { return Err(ConfigError::Malformed); },
        };
        if version != 0 {
            return Err(ConfigError::UnsupportedRepositoryFormatVersion);
        }
        let bare = match ini_lookup(text.as_str(), "core", "bare") {
            Some(Some(v)) => match read_bool(v.as_str()) {
                Some(b) => b,
                None => { return Err(ConfigError::Malformed); },
            },
            _ => { return Err(ConfigError::Malformed); },
        };
        let file_mode = match ini_lookup(text.as_str(), "core", "filemode") {
            Some(Some(v)) => match read_bool(v.as_str()) {
                Some(b) => b,
                None => { return Err(ConfigError::Malformed); },
            },
            _ => { return Err(ConfigError::Malformed); },
        };
        Ok(Config { bare, repository_format_version: version, file_mode })
    }

    /// Writes the settings as the bytes of a configuration file.
    pub fn dump(&self) -> (out: Vec<u8>)
        ensures
            out@ == config_document(self@),
    {
        let mut settings: Vec<(String, String, String)> = Vec::new();
        settings.push(("core".to_owned(), "bare".to_owned(), write_bool(self.bare)));
        settings.push(
            (
                "core".to_owned(),
                "repositoryformatversion".to_owned(),
                write_i32(self.repository_format_version),
            ),
        );
        settings.push(("core".to_owned(), "filemode".to_owned(), write_bool(self.file_mode)));
        let out = render_ini(&settings);
        assert(settings_of(settings@) =~= seq![
            ("core"@, "bare"@, bool_text(self@.bare)),
            ("core"@, "repositoryformatversion"@, int_text(self@.repository_format_version)),
            ("core"@, "filemode"@, bool_text(self@.file_mode)),
        ]);
        out
    }
}

} // verus!
