//! How the layer is told to treat incoming traffic.

use vstd::prelude::*;

verus! {

/// Mode of operation for incoming TCP traffic. Mirroring is the default.
#[derive(Clone, Copy, Debug, PartialEq, Eq, Structural)]
pub enum IncomingMode {
    /// Sniff the port and hand a copy of the data to the listeners.
    Mirror,
    /// Take the traffic away from the remote application, wholly or by HTTP
    /// header filter.
    Steal,
}

impl Default for IncomingMode {
    fn default() -> (mode: IncomingMode)
        ensures
            mode == IncomingMode::Mirror,
    {
        IncomingMode::Mirror
    }
}

/// A mode was given as text that is neither a boolean nor a mode's name.
#[derive(Clone, Copy, Debug, PartialEq, Eq, Structural)]
pub struct IncomingConfigParseError;

impl IncomingConfigParseError {
    /// The text shown to the user.
    pub fn message(&self) -> (text: String)
        ensures
            text@ == "could not parse IncomingConfig from string, values must be bool or mirror/steal"@,
    {
        "could not parse IncomingConfig from string, values must be bool or mirror/steal".to_owned()
    }
}

/// The mode that a piece of text stands for, if any: a boolean says whether to
/// steal, and the two modes go by their lower-case names.
pub open spec fn mode_of_text(text: Seq<char>) -> Option<IncomingMode> {
    if text == "true"@ || text == "steal"@ {
        Some(IncomingMode::Steal)
    } else if text == "false"@ || text == "mirror"@ {
        Some(IncomingMode::Mirror)
    } else {
        None
    }
}

fn same_text(a: &str, b: &str) -> (same: bool)
    ensures
        same == (a@ == b@),
{
    let left = a.to_owned();
    let right = b.to_owned();
    left == right
}

impl IncomingMode {
    /// Reads a mode from text.
    pub fn parse(val: &str) -> (parsed: Result<IncomingMode, IncomingConfigParseError>)
        ensures
            match mode_of_text(val@) {
                Some(mode) => parsed == Ok::<IncomingMode, IncomingConfigParseError>(mode),
                None => parsed.is_err(),
            },
    {
        if same_text(val, "true") || same_text(val, "steal") {
            Ok(IncomingMode::Steal)
        } else if same_text(val, "false") || same_text(val, "mirror") {
            Ok(IncomingMode::Mirror)
        } else {
            Err(IncomingConfigParseError)
        }
    }
}

impl core::str::FromStr for IncomingMode {
    type Err = IncomingConfigParseError;

    fn from_str(val: &str) -> (parsed: Result<IncomingMode, IncomingConfigParseError>)
        ensures
            match mode_of_text(val@) {
                Some(mode) => parsed == Ok::<IncomingMode, IncomingConfigParseError>(mode),
                None => parsed.is_err(),
            },
    {
        IncomingMode::parse(val)
    }
}

/// Picks the HTTP requests to steal by their headers. Without a filter all
/// traffic of a stolen port is taken.
#[derive(Clone, Debug, PartialEq, Eq)]
pub struct HttpHeaderFilterConfig {
    /// A regular expression held against each `name: value` header line.
    pub filter: Option<String>,
}

impl Default for HttpHeaderFilterConfig {
    fn default() -> (config: HttpHeaderFilterConfig)
        ensures
            config.filter.is_none(),
    {
        HttpHeaderFilterConfig { filter: None }
    }
}

/// Controls the incoming TCP traffic feature.
#[derive(Clone, Debug, PartialEq, Eq)]
pub struct IncomingConfig {
    /// Mirror or steal.
    pub mode: IncomingMode,
    /// The HTTP header filter, used when stealing.
    pub http_header_filter: HttpHeaderFilterConfig,
}

impl Default for IncomingConfig {
    fn default() -> (config: IncomingConfig)
        ensures
            config.mode == IncomingMode::Mirror,
            config.http_header_filter.filter.is_none(),
    {
        IncomingConfig {
            mode: IncomingMode::Mirror,
            http_header_filter: HttpHeaderFilterConfig { filter: None },
        }
    }
}

impl IncomingConfig {
    /// Whether incoming traffic is stolen rather than mirrored.
    pub fn is_steal(&self) -> (steal: bool)
        ensures
            steal == (self.mode == IncomingMode::Steal),
    {
        match self.mode {
            IncomingMode::Steal => true,
            IncomingMode::Mirror => false,
        }
    }

    /// The configuration used when the feature's section is switched off: the
    /// mode still follows the environment override `mode_override`, if one is
    /// set, and no header filter is active.
    pub fn disabled_config(mode_override: Option<&str>) -> (config: Result<
        IncomingConfig,
        IncomingConfigParseError,
    >)
        ensures
            match mode_override {
                None => config matches Ok(c) && c.mode == IncomingMode::Mirror
                    && c.http_header_filter.filter.is_none(),
                Some(text) => match mode_of_text(text@) {
                    Some(mode) => config matches Ok(c) && c.mode == mode
                        && c.http_header_filter.filter.is_none(),
                    None => config.is_err(),
                },
            },
    {
        let mode = match mode_override {
            None => IncomingMode::Mirror,
            Some(text) => match IncomingMode::parse(text) {
                Ok(mode) => mode,
                Err(error) => {
                    return Err(error);
                },
            },
        };
        Ok(IncomingConfig { mode, http_header_filter: HttpHeaderFilterConfig { filter: None } })
    }
}

} // verus!
