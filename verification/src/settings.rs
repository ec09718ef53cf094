//! The editor's settings and where they are kept.

use vstd::prelude::*;
use vstd::string::*;

verus! {

/// The settings of the editor.
#[derive(Clone, Debug)]
pub struct AppSettings {
    pub editor_font_size: i32,
    pub editor_word_wrap: bool,
    pub editor_minimap: bool,
    pub editor_line_numbers: bool,
    pub editor_render_whitespace: bool,
    pub terminal_font_size: i32,
    pub sidebar_width: i32,
    pub auto_save_enabled: bool,
    pub auto_save_interval: i32,
    pub theme: String,
}

impl AppSettings {
    /// Whether these are the settings of a fresh installation.
    pub open spec fn is_default(&self) -> bool {
        &&& self.editor_font_size == 14
        &&& self.editor_word_wrap
        &&& !self.editor_minimap
        &&& self.editor_line_numbers
        &&& !self.editor_render_whitespace
        &&& self.terminal_font_size == 13
        &&& self.sidebar_width == 240
        &&& !self.auto_save_enabled
        &&& self.auto_save_interval == 5000
        &&& self.theme@ == "dark"@
    }
}

impl Default for AppSettings {
    /// The settings of a fresh installation.
    fn default() -> (settings: Self)
        ensures
            settings.is_default(),
    {
        AppSettings {
            editor_font_size: 14,
            editor_word_wrap: true,
            editor_minimap: false,
            editor_line_numbers: true,
            editor_render_whitespace: false,
            terminal_font_size: 13,
            sidebar_width: 240,
            auto_save_enabled: false,
            auto_save_interval: 5000,
            theme: String::from_str("dark"),
        }
    }
}

/// The settings to work with: the stored ones where the settings file
/// exists, else those of a fresh installation.
pub fn stored_or_default(stored: Option<AppSettings>) -> (settings: AppSettings)
    ensures
        match stored {
            Some(kept) => settings == kept,
            None => settings.is_default(),
        },
{
    match stored {
        Some(kept) => kept,
        None => AppSettings::default(),
    }
}

/// The name of the editor's directory inside the user's configuration
/// directory.
pub fn config_dir_name() -> (name: &'static str)
    ensures
        name@ == "xds-code"@,
{
    "xds-code"
}

/// The name of the settings file inside the editor's directory.
pub fn settings_file_name() -> (name: &'static str)
    ensures
        name@ == "settings.json"@,
{
    "settings.json"
}

/// Why the settings could not be loaded or saved.
#[derive(Debug, PartialEq, Eq)]
pub enum SettingsError {
    /// The user has no configuration directory.
    NoConfigDir,
    /// The editor's directory could not be created.
    CreateDir { detail: String },
    /// The settings file could not be read.
    Read { detail: String },
    /// The settings file does not hold settings.
    Parse { detail: String },
    /// The settings could not be written down as text.
    Serialize { detail: String },
    /// The settings file could not be written.
    Write { detail: String },
}

impl SettingsError {
    /// The message for the user, as a text.
    pub open spec fn message_text(&self) -> Seq<char> {
        match self {
            SettingsError::NoConfigDir => "Could not find config directory"@,
            SettingsError::CreateDir { detail } => "Failed to create config directory: "@
                + detail@,
            SettingsError::Read { detail } => "Failed to read settings: "@ + detail@,
            SettingsError::Parse { detail } => "Failed to parse settings: "@ + detail@,
            SettingsError::Serialize { detail } => "Failed to serialize settings: "@ + detail@,
            SettingsError::Write { detail } => "Failed to write settings: "@ + detail@,
        }
    }

    /// The message for the user.
    pub fn message(&self) -> (message: String)
        ensures
            message@ == self.message_text(),
    {
        match self {
            SettingsError::NoConfigDir => String::from_str("Could not find config directory"),
            SettingsError::CreateDir { detail } => String::from_str(
                "Failed to create config directory: ",
            ).concat(detail.as_str()),
            SettingsError::Read { detail } => String::from_str("Failed to read settings: ").concat(
                detail.as_str(),
            ),
            SettingsError::Parse { detail } => String::from_str(
                "Failed to parse settings: ",
            ).concat(detail.as_str()),
            SettingsError::Serialize { detail } => String::from_str(
                "Failed to serialize settings: ",
            ).concat(detail.as_str()),
            SettingsError::Write { detail } => String::from_str(
                "Failed to write settings: ",
            ).concat(detail.as_str()),
        }
    }
}

} // verus!
