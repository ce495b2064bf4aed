//! Where the generator reads and writes.
use vstd::prelude::*;

verus! {

/// Paths of the generated crates, the schema file and the templates.
#[derive(Debug, Clone)]
pub struct Config {
    path_rtd: String,
    path_telegram_client: String,
    file_tl: String,
    path_template: String,
}

/// The mathematical value of a configuration: its four paths.
pub struct ConfigV {
    pub path_rtd: Seq<char>,
    pub path_telegram_client: Seq<char>,
    pub file_tl: Seq<char>,
    pub path_template: Seq<char>,
}

impl View for Config {
    type V = ConfigV;

    closed spec fn view(&self) -> ConfigV {
        ConfigV {
            path_rtd: self.path_rtd@,
            path_telegram_client: self.path_telegram_client@,
            file_tl: self.file_tl@,
            path_template: self.path_template@,
        }
    }
}

impl Config {
    /// A configuration with the given paths.
    pub fn new(path_rtd: String, path_telegram_client: String, file_tl: String, path_template: String) -> (res: Self)
        ensures
            res@ == (ConfigV {
                path_rtd: path_rtd@,
                path_telegram_client: path_telegram_client@,
                file_tl: file_tl@,
                path_template: path_template@,
            }),
    {
        Config { path_rtd, path_telegram_client, file_tl, path_template }
    }

    /// Root of the generated `rtdlib` crate.
    pub fn path_rtd(&self) -> (res: &String)
        ensures
            res@ == self@.path_rtd,
    {
        &self.path_rtd
    }

    /// Root of the generated `telegram-client` crate.
    pub fn path_telegram_client(&self) -> (res: &String)
        ensures
            res@ == self@.path_telegram_client,
    {
        &self.path_telegram_client
    }

    /// The TL schema file.
    pub fn file_tl(&self) -> (res: &String)
        ensures
            res@ == self@.file_tl,
    {
        &self.file_tl
    }

    /// The template directory.
    pub fn path_template(&self) -> (res: &String)
        ensures
            res@ == self@.path_template,
    {
        &self.path_template
    }
}

} // verus!
