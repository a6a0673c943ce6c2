//! One directory's configuration overlay.
//!
//! A `DotConfig` starts empty and is filled at most once, from the text of
//! the directory's local configuration file.  Parsing is the work of the
//! `config` crate; whether a given text parses is named [`yaml_ok`], and
//! everything the library decides is stated over that name.

use vstd::prelude::*;
use crate::errors::DotError;

verus! {

/// Whether `text` parses under the configuration file format (YAML).  The
/// outcome depends on the text alone.
pub uninterp spec fn yaml_ok(text: Seq<char>) -> bool;

#[verifier::external_type_specification]
#[verifier::external_body]
pub struct ExConfig(config::Config);

#[verifier::external_type_specification]
#[verifier::external_body]
pub struct ExConfigError(config::ConfigError);

/// Relies on `config::Config::builder`, `ConfigBuilder::add_source`,
/// `config::File::from_str` and `ConfigBuilder::build`: building a
/// configuration from a single string source parses that text as YAML,
/// and success or failure is a function of the text alone.
#[verifier::external_body]
fn parse_yaml(text: &str) -> (r: Result<config::Config, config::ConfigError>)
    ensures
        r is Ok <==> yaml_ok(text@),
{
    config::Config::builder()
        .add_source(config::File::from_str(text, config::FileFormat::Yaml))
        .build()
}

/// The settings of one directory, as parsed from its configuration file.
pub struct DotConfig {
    /// The parsed settings, present once a file's text was loaded.
    settings: Option<config::Config>,
    /// The text the settings were parsed from.
    source: Ghost<Option<Seq<char>>>,
}

impl DotConfig {
    /// The text this overlay was loaded from, if any was.
    pub closed spec fn view(self) -> Option<Seq<char>> {
        self.source@
    }

    /// Parsed settings are held exactly when a source text is recorded.
    pub closed spec fn wf(self) -> bool {
        self.settings is Some <==> self.source@ is Some
    }

    /// An empty overlay: nothing loaded yet.
    pub fn new() -> (r: DotConfig)
        ensures
            r@ is None,
            r.wf(),
    {
        DotConfig { settings: None, source: Ghost(None) }
    }

    /// Load the overlay from the given configuration file text.
    ///
    /// Returns an error, and leaves the overlay as it was, exactly when
    /// the text does not parse.
    pub fn load_from_file(&mut self, text: &str) -> (r: Result<(), DotError>)
        requires
            old(self).wf(),
        ensures
            final(self).wf(),
            yaml_ok(text@) ==> r == Ok::<(), DotError>(()) && final(self)@ == Some(text@),
            !yaml_ok(text@) ==> r == Err::<(), DotError>(DotError::ConfigParse) && *final(self)
                == *old(self),
    {
        match parse_yaml(text) {
            Ok(parsed) => {
                self.settings = Some(parsed);
                proof {
                    self.source@ = Some(text@);
                }
                Ok(())
            },
            Err(_) => Err(DotError::ConfigParse),
        }
    }

    /// Whether any configuration was loaded into this overlay.
    pub fn is_loaded(&self) -> (r: bool)
        requires
            self.wf(),
        ensures
            r == (self@ is Some),
    {
        self.settings.is_some()
    }
}

} // verus!
