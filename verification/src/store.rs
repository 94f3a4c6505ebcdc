//! The hot-reloading configuration store.
//!
//! The store keeps the current snapshot and the modification stamp it
//! last observed. The backing file itself lives outside; every call
//! hands the store a [`FileRead`]: what a read of the file produced just
//! now. `get` reloads only when the file's stamp has advanced past the
//! last observed one (or none was observed yet); the settings editor's
//! `read_for_gui` always reloads. A malformed document falls back to the
//! default configuration and asks for no write at all, so malformed user
//! data is never overwritten; only a missing file asks the caller to
//! persist the rendered default.

use vstd::prelude::*;
use crate::config::{default_config_v, create_default_config, duplicate_config, Config, ConfigV};
use crate::format::{parse_config, render_config, spec_parse_config, spec_render_config};

verus! {

/// What one read of the backing file produced.
pub enum FileRead {
    /// The file does not exist (or its metadata could not be read).
    Missing,
    /// The file's text and its modification stamp.
    Present { text: String, modified: u64 },
}

/// The error an explicit save can surface. A document that cannot be
/// parsed is not an error of this kind: reads fall back to the default
/// configuration instead.
#[derive(Clone, Copy, Debug, PartialEq, Eq, Structural)]
pub enum ConfigError {
    /// The backing file could not be written.
    Io,
}

/// What a document text yields: its parse, or the default configuration.
pub open spec fn parse_or_default(t: Seq<char>) -> ConfigV {
    match spec_parse_config(t) {
        Some(c) => c,
        None => default_config_v(),
    }
}

/// Whether a file stamp makes the snapshot stale: always when none was
/// observed yet, else only when the stamp strictly advanced.
pub open spec fn is_stale(last: Option<u64>, modified: u64) -> bool {
    match last {
        None => true,
        Some(t) => modified > t,
    }
}

/// The configuration store: the in-memory snapshot and the last
/// observed modification stamp.
pub struct ConfigStore {
    pub config: Config,
    pub last_modified: Option<u64>,
}

/// Loads a store state from one file read. For a present file the text
/// is parsed, falling back to the default on a malformed document, and
/// no write is requested — the malformed bytes stay untouched. For a
/// missing file the default is used and its rendering is handed back
/// for the caller to persist.
pub fn load_or_create_config(file: &FileRead) -> (r: (ConfigStore, Option<String>))
    ensures
        match *file {
            FileRead::Missing => {
                &&& r.0.config@ == default_config_v()
                &&& r.0.last_modified is None
                &&& r.1 matches Some(t) && t@ == spec_render_config(default_config_v())
            },
            FileRead::Present { ref text, modified } => {
                &&& r.0.config@ == parse_or_default(text@)
                &&& r.0.last_modified == Some(modified)
                &&& r.1 is None
            },
        },
{
    match file {
        FileRead::Missing => {
            let config = create_default_config();
            let rendered = render_config(&config);
            (ConfigStore { config, last_modified: None }, Some(rendered))
        },
        FileRead::Present { text, modified } => {
            let config = match parse_config(text.as_str()) {
                Some(c) => c,
                None => create_default_config(),
            };
            (ConfigStore { config, last_modified: Some(*modified) }, None)
        },
    }
}

impl ConfigStore {
    /// The store as first constructed, from one read of the file.
    /// The second component is the rendered default to persist when the
    /// file was missing.
    pub fn init(file: &FileRead) -> (r: (ConfigStore, Option<String>))
        ensures
            match *file {
                FileRead::Missing => {
                    &&& r.0.config@ == default_config_v()
                    &&& r.0.last_modified is None
                    &&& r.1 matches Some(t) && t@ == spec_render_config(default_config_v())
                },
                FileRead::Present { ref text, modified } => {
                    &&& r.0.config@ == parse_or_default(text@)
                    &&& r.0.last_modified == Some(modified)
                    &&& r.1 is None
                },
            },
    {
        load_or_create_config(file)
    }

    /// The current snapshot, reloading first when the file's stamp has
    /// advanced past the last observed one. A missing file never
    /// reloads, and nothing is ever written back: a malformed document
    /// only makes the snapshot the default.
    pub fn get(&mut self, file: &FileRead) -> (c: Config)
        ensures
            c@ == final(self).config@,
            match *file {
                FileRead::Missing => {
                    &&& final(self).config@ == old(self).config@
                    &&& final(self).last_modified == old(self).last_modified
                },
                FileRead::Present { ref text, modified } => {
                    if is_stale(old(self).last_modified, modified) {
                        &&& final(self).config@ == parse_or_default(text@)
                        &&& final(self).last_modified == Some(modified)
                    } else {
                        &&& final(self).config@ == old(self).config@
                        &&& final(self).last_modified == old(self).last_modified
                    }
                },
            },
    {
        match file {
            FileRead::Missing => {},
            FileRead::Present { text, modified } => {
                let stale = match self.last_modified {
                    None => true,
                    Some(t) => *modified > t,
                };
                if stale {
                    let config = match parse_config(text.as_str()) {
                        Some(c) => c,
                        None => create_default_config(),
                    };
                    self.config = config;
                    self.last_modified = Some(*modified);
                }
            },
        }
        duplicate_config(&self.config)
    }

    /// The snapshot for the settings editor: always reloads, so the
    /// editor never shows stale data after an external edit. The second
    /// component is the rendered default to persist when the file was
    /// missing.
    pub fn read_for_gui(&mut self, file: &FileRead) -> (r: (Config, Option<String>))
        ensures
            r.0@ == final(self).config@,
            match *file {
                FileRead::Missing => {
                    &&& final(self).config@ == default_config_v()
                    &&& final(self).last_modified is None
                    &&& r.1 matches Some(t) && t@ == spec_render_config(default_config_v())
                },
                FileRead::Present { ref text, modified } => {
                    &&& final(self).config@ == parse_or_default(text@)
                    &&& final(self).last_modified == Some(modified)
                    &&& r.1 is None
                },
            },
    {
        let (st, persist) = load_or_create_config(file);
        *self = st;
        (duplicate_config(&self.config), persist)
    }

    /// Commits an explicit save. The caller first renders the document
    /// with [`render_config`] and writes it; `wrote_ok` says whether
    /// that write succeeded. On success the snapshot and its stamp are
    /// updated together; on failure the store is left exactly as it
    /// was and the write error is surfaced.
    pub fn write_config(&mut self, config: &Config, wrote_ok: bool, now: u64) -> (r: Result<
        (),
        ConfigError,
    >)
        ensures
            wrote_ok ==> {
                &&& r is Ok
                &&& final(self).config@ == config@
                &&& final(self).last_modified == Some(now)
            },
            !wrote_ok ==> {
                &&& r == Result::<(), ConfigError>::Err(ConfigError::Io)
                &&& final(self).config@ == old(self).config@
                &&& final(self).last_modified == old(self).last_modified
            },
    {
        if wrote_ok {
            self.config = duplicate_config(config);
            self.last_modified = Some(now);
            Ok(())
        } else {
            Err(ConfigError::Io)
        }
    }
}

} // verus!
