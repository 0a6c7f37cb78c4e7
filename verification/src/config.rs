//! Configuration snapshot owned by the history store, and its defaults.
//!
//! The snapshot is read-only after load.  Reading the configuration file from
//! disk happens outside the library; the values arrive here as plain fields.

use vstd::prelude::*;

verus! {

pub const APP_NAME: &'static str = "wayclip";

pub const CONFIG_FILE: &'static str = "config.toml";

pub const SYSTEMD_FILE: &'static str = "wayclip.service";

/// Default bound on the history length; zero means unbounded.
pub const MAX_HISTORY: usize = 0;

pub const MENU: &'static str = "bemenu";

/// Default retention of image entries.
pub const ALLOW_IMAGES: bool = false;

/// Default preferred text mime type.
pub const MIME: &'static str = "text/plain";

pub const DEDUPE: bool = true;

pub const ENCRYPT: bool = true;

pub const FONT: &'static str = "monospace 12";

pub const TITLE: &'static str = "search >";

pub const LINES: u32 = 15;

pub const GRAB_FOCUS: bool = true;

pub const MONITOR: i32 = -1;

/// General daemon settings.
#[derive(Debug)]
pub struct General {
    pub max_history: usize,
    pub menu: String,
    pub allow_images: bool,
}

/// Settings for the data taken off the clipboard.
#[derive(Debug)]
pub struct Data {
    pub mime: String,
    pub dedupe: bool,
}

/// Settings for the persistence codec's key material.
#[derive(Debug)]
pub struct Encryption {
    pub encrypt: bool,
    pub key: Option<String>,
}

/// Settings handed to the picker front end.
#[derive(Debug)]
pub struct BeMenuConfig {
    pub font: String,
    pub title: String,
    pub lines: u32,
    pub grab_focus: bool,
    pub monitor: i32,
}

/// The full configuration snapshot.
#[derive(Debug)]
pub struct Config {
    pub general: General,
    pub data: Data,
    pub encryption: Encryption,
    pub bemenu: BeMenuConfig,
}

/// Model of the general settings.
pub struct GeneralModel {
    pub max_history: usize,
    pub menu: Seq<char>,
    pub allow_images: bool,
}

/// Model of the data settings.
pub struct DataModel {
    pub mime: Seq<char>,
    pub dedupe: bool,
}

/// Model of the key-material settings.
pub struct EncryptionModel {
    pub encrypt: bool,
    pub key: Option<Seq<char>>,
}

/// Model of the picker settings.
pub struct BeMenuModel {
    pub font: Seq<char>,
    pub title: Seq<char>,
    pub lines: u32,
    pub grab_focus: bool,
    pub monitor: i32,
}

/// Model of the full snapshot.
pub struct ConfigModel {
    pub general: GeneralModel,
    pub data: DataModel,
    pub encryption: EncryptionModel,
    pub bemenu: BeMenuModel,
}

impl View for General {
    type V = GeneralModel;

    open spec fn view(&self) -> GeneralModel {
        GeneralModel {
            max_history: self.max_history,
            menu: self.menu@,
            allow_images: self.allow_images,
        }
    }
}

impl View for Data {
    type V = DataModel;

    open spec fn view(&self) -> DataModel {
        DataModel { mime: self.mime@, dedupe: self.dedupe }
    }
}

impl View for Encryption {
    type V = EncryptionModel;

    open spec fn view(&self) -> EncryptionModel {
        EncryptionModel { encrypt: self.encrypt, key: self.key.deep_view() }
    }
}

impl View for BeMenuConfig {
    type V = BeMenuModel;

    open spec fn view(&self) -> BeMenuModel {
        BeMenuModel {
            font: self.font@,
            title: self.title@,
            lines: self.lines,
            grab_focus: self.grab_focus,
            monitor: self.monitor,
        }
    }
}

impl View for Config {
    type V = ConfigModel;

    open spec fn view(&self) -> ConfigModel {
        ConfigModel {
            general: self.general@,
            data: self.data@,
            encryption: self.encryption@,
            bemenu: self.bemenu@,
        }
    }
}

impl Default for General {
    fn default() -> (r: Self)
        ensures
            r.max_history == MAX_HISTORY,
            r.menu@ == MENU@,
            r.allow_images == ALLOW_IMAGES,
    {
        General { max_history: MAX_HISTORY, menu: MENU.to_owned(), allow_images: ALLOW_IMAGES }
    }
}

impl Default for Data {
    fn default() -> (r: Self)
        ensures
            r.mime@ == MIME@,
            r.dedupe == DEDUPE,
    {
        Data { mime: MIME.to_owned(), dedupe: DEDUPE }
    }
}

impl Default for Encryption {
    fn default() -> (r: Self)
        ensures
            r.encrypt == ENCRYPT,
            r.key is None,
    {
        Encryption { encrypt: ENCRYPT, key: None }
    }
}

impl Default for BeMenuConfig {
    fn default() -> (r: Self)
        ensures
            r.font@ == FONT@,
            r.title@ == TITLE@,
            r.lines == LINES,
            r.grab_focus == GRAB_FOCUS,
            r.monitor == MONITOR,
    {
        BeMenuConfig {
            font: FONT.to_owned(),
            title: TITLE.to_owned(),
            lines: LINES,
            grab_focus: GRAB_FOCUS,
            monitor: MONITOR,
        }
    }
}

impl Default for Config {
    fn default() -> (r: Self)
        ensures
            r.general.max_history == MAX_HISTORY,
            r.general.menu@ == MENU@,
            r.general.allow_images == ALLOW_IMAGES,
            r.data.mime@ == MIME@,
            r.data.dedupe == DEDUPE,
            r.encryption.encrypt == ENCRYPT,
            r.encryption.key is None,
            r.bemenu.font@ == FONT@,
            r.bemenu.title@ == TITLE@,
            r.bemenu.lines == LINES,
            r.bemenu.grab_focus == GRAB_FOCUS,
            r.bemenu.monitor == MONITOR,
    {
        Config {
            general: General::default(),
            data: Data::default(),
            encryption: Encryption::default(),
            bemenu: BeMenuConfig::default(),
        }
    }
}

/// Copies an optional string; the copy has the same model.
pub fn clone_opt_string(s: &Option<String>) -> (r: Option<String>)
    ensures
        r.deep_view() == s.deep_view(),
{
    match s {
        Some(v) => Some(v.clone()),
        None => None,
    }
}

/// Copies a configuration snapshot; the copy has the same model.
pub fn clone_config(c: &Config) -> (r: Config)
    ensures
        r@ == c@,
{
    Config {
        general: General {
            max_history: c.general.max_history,
            menu: c.general.menu.clone(),
            allow_images: c.general.allow_images,
        },
        data: Data { mime: c.data.mime.clone(), dedupe: c.data.dedupe },
        encryption: Encryption {
            encrypt: c.encryption.encrypt,
            key: clone_opt_string(&c.encryption.key),
        },
        bemenu: BeMenuConfig {
            font: c.bemenu.font.clone(),
            title: c.bemenu.title.clone(),
            lines: c.bemenu.lines,
            grab_focus: c.bemenu.grab_focus,
            monitor: c.bemenu.monitor,
        },
    }
}

} // verus!
