//! Application settings and their defaults.
use vstd::prelude::*;
use vstd::string::StringExecFns;

verus! {

#[derive(Debug)]
pub struct FontSettings {
    pub family: String,
    pub default_size: u32,
    pub default_color: String,
}

#[derive(Debug)]
pub struct RubySettings {
    pub family: String,
    pub default_size: u32,
    pub default_color: String,
}

#[derive(Debug)]
pub struct GeneralSettings {
    pub encoding: String,
    pub language: String,
    pub theme: String,
    pub auto_open_last_file: bool,
    pub auto_save: bool,
    pub last_file_path: Option<String>,
}

#[derive(Debug)]
pub struct DisplaySettings {
    pub mirror: bool,
    pub resolution_width: u32,
    pub resolution_height: u32,
}

#[derive(Debug)]
pub struct AppSettings {
    pub font: FontSettings,
    pub ruby: RubySettings,
    pub general: GeneralSettings,
    pub display: DisplaySettings,
}

/// The display width taken when the settings name none.
pub fn default_resolution_width() -> (r: u32)
    ensures
        r == 1920,
{
    1920
}

/// The display height taken when the settings name none.
pub fn default_resolution_height() -> (r: u32)
    ensures
        r == 1080,
{
    1080
}

impl Default for AppSettings {
    fn default() -> (r: AppSettings)
        ensures
            r.font.family@ == "Noto Sans JP"@,
            r.font.default_size == 48,
            r.font.default_color@ == "#FFFFFF"@,
            r.ruby.family@ == "Noto Sans JP"@,
            r.ruby.default_size == 24,
            r.ruby.default_color@ == "#FFFFFF"@,
            r.general.encoding@ == "UTF-8"@,
            r.general.language@ == "ja"@,
            r.general.theme@ == "dark"@,
            !r.general.auto_open_last_file,
            !r.general.auto_save,
            r.general.last_file_path is None,
            r.display.mirror,
            r.display.resolution_width == 1920,
            r.display.resolution_height == 1080,
    {
        AppSettings {
            font: FontSettings {
                family: String::from_str("Noto Sans JP"),
                default_size: 48,
                default_color: String::from_str("#FFFFFF"),
            },
            ruby: RubySettings {
                family: String::from_str("Noto Sans JP"),
                default_size: 24,
                default_color: String::from_str("#FFFFFF"),
            },
            general: GeneralSettings {
                encoding: String::from_str("UTF-8"),
                language: String::from_str("ja"),
                theme: String::from_str("dark"),
                auto_open_last_file: false,
                auto_save: false,
                last_file_path: None,
            },
            display: DisplaySettings {
                mirror: true,
                resolution_width: default_resolution_width(),
                resolution_height: default_resolution_height(),
            },
        }
    }
}

} // verus!
