//! Settings of the application, with the values that stand in for whatever
//! the settings store does not hold.

use vstd::prelude::*;

verus! {

/// The settings of the application.
#[derive(Debug, Clone)]
pub struct AppSettings {
    pub media_directory: String,
    pub theme: String,
}

/// The media directory where the store holds none.
pub open spec fn default_media_directory() -> Seq<char> {
    "/path"@
}

/// The theme where the store holds none.
pub open spec fn default_theme() -> Seq<char> {
    "dark"@
}

/// A stored text, or `fallback` where there is none.
pub open spec fn stored_or(stored: Option<&str>, fallback: Seq<char>) -> Seq<char> {
    match stored {
        Some(text) => text@,
        None => fallback,
    }
}

impl AppSettings {
    /// The settings that the store gives. Each argument is the text that the
    /// store holds under the setting's key, `None` where it holds no text
    /// there; a setting that the store lacks takes its default.
    pub fn load_from_store(media_directory: Option<&str>, theme: Option<&str>) -> (settings:
        AppSettings)
        ensures
            settings.media_directory@ == stored_or(media_directory, default_media_directory()),
            settings.theme@ == stored_or(theme, default_theme()),
    {
        let media_directory = match media_directory {
            Some(text) => text.to_string(),
            None => "/path".to_string(),
        };
        let theme = match theme {
            Some(text) => text.to_string(),
            None => "dark".to_string(),
        };
        AppSettings { media_directory, theme }
    }
}

} // verus!
