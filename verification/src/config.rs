//! What the user has configured: the player to start and the options it
//! is started with unless a request says otherwise.
//!
//! As text, a configuration is two lines.  The first is the path of the
//! player.  The second, which may be missing or empty, holds the default
//! options as a URL's query does: `key=value` pairs joined by `&`, each key
//! and value percent-encoded.  Further lines are not read.

use vstd::prelude::*;
use crate::options::{all_text, distinct_keys, Entries, Options};
use crate::protocol::{parse_options, spec_options};
use crate::scan::{after_first, before_first, split_first, to_vec};

verus! {

/// Why no configuration could be had.
#[derive(Clone, Copy, Debug, PartialEq, Eq, Structural)]
pub enum ConfigError {
    /// The configuration could not be read.
    Unreadable,
    /// The configuration could not be understood.
    Malformed,
    /// The configuration names no player.
    MissingPlayer,
}

/// The byte that ends a line.
pub const NEWLINE: u8 = 0x0a;

/// The mathematical model of a configuration.
pub ghost struct ConfigView {
    pub player: Seq<u8>,
    pub defaults: Entries,
}

/// A configuration: the path of the player and the default options.
#[derive(Debug)]
pub struct Configuration {
    player: Vec<u8>,
    defaults: Options,
}

impl View for Configuration {
    type V = ConfigView;

    closed spec fn view(&self) -> ConfigView {
        ConfigView { player: self.player@, defaults: self.defaults@ }
    }
}

/// The first line of a text.
pub open spec fn spec_first_line(text: Seq<u8>) -> Seq<u8> {
    before_first(text, NEWLINE)
}

/// The second line of a text, empty where it has none.
pub open spec fn spec_second_line(text: Seq<u8>) -> Seq<u8> {
    before_first(after_first(text, NEWLINE), NEWLINE)
}

/// What a configuration text amounts to.
pub open spec fn spec_from_text(text: Seq<u8>) -> Result<ConfigView, ConfigError> {
    if spec_first_line(text).len() == 0 {
        Err(ConfigError::MissingPlayer)
    } else {
        match spec_options(spec_second_line(text)) {
            Some(defaults) => Ok(ConfigView { player: spec_first_line(text), defaults }),
            None => Err(ConfigError::Malformed),
        }
    }
}

impl Configuration {
    /// The configuration is well formed: it names a player, and no default
    /// option is named twice.
    pub open spec fn wf(&self) -> bool {
        self@.player.len() > 0 && distinct_keys(self@.defaults)
    }

    /// Makes a configuration.  An empty player path is refused, and nothing
    /// else is.
    pub fn new(player: Vec<u8>, defaults: Options) -> (r: Result<Configuration, ConfigError>)
        requires
            defaults.wf(),
        ensures
            match r {
                Ok(config) => player@.len() > 0 && config.wf() && config@ == (ConfigView {
                    player: player@,
                    defaults: defaults@,
                }),
                Err(e) => player@.len() == 0 && e == ConfigError::MissingPlayer,
            },
    {
        if player.len() == 0 {
            Err(ConfigError::MissingPlayer)
        } else {
            Ok(Configuration { player, defaults })
        }
    }

    /// Reads a configuration from its text.  A text whose first line is
    /// empty names no player; one whose second line is no list of options
    /// is malformed.
    pub fn from_text(text: &[u8]) -> (r: Result<Configuration, ConfigError>)
        ensures
            match r {
                Ok(config) => spec_from_text(text@) == Ok::<ConfigView, ConfigError>(config@)
                    && config.wf() && all_text(config@.defaults),
                Err(e) => spec_from_text(text@) == Err::<ConfigView, ConfigError>(e),
            },
    {
        let (first, rest) = split_first(text, NEWLINE);
        if first.len() == 0 {
            return Err(ConfigError::MissingPlayer);
        }
        let (second, _) = split_first(rest, NEWLINE);
        match parse_options(second) {
            Some(defaults) => Ok(Configuration { player: to_vec(first), defaults }),
            None => Err(ConfigError::Malformed),
        }
    }

    /// The path of the player.
    pub fn player(&self) -> (r: &Vec<u8>)
        ensures
            r@ == self@.player,
    {
        &self.player
    }

    /// The default options.
    pub fn defaults(&self) -> (r: &Options)
        ensures
            r@ == self@.defaults,
    {
        &self.defaults
    }
}

} // verus!
