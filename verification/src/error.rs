//! The errors that end the pipeline.

use vstd::prelude::*;
use vstd::string::*;

verus! {

/// A failure that the pipeline cannot recover from. Each variant carries the
/// text that describes the underlying fault.
#[derive(Debug, Clone, PartialEq, Eq)]
pub enum SSClipError {
    /// The configuration could not be loaded.
    ConfigError(String),
    /// The clipboard refused the image for a reason other than being occupied.
    CopyError(String),
    /// The watch on the configuration file could not be created or kept.
    Notify(String),
    /// The tray icon failed.
    Trayicon(String),
    /// A pipeline stage lost its inbound channel.
    CrossBeamRecvError(String),
    /// The pattern at `index` in the configuration is malformed. `pattern` is
    /// its text, and `pos` and `msg` are the parser's objection to it.
    PatternError { index: usize, pattern: String, pos: usize, msg: String },
}

impl SSClipError {
    /// The text in front of the fault's own description.
    pub open spec fn prefix(self) -> Seq<char> {
        match self {
            SSClipError::ConfigError(_) => "Failed to load config: "@,
            SSClipError::CopyError(_) => "Failed to copy image: "@,
            SSClipError::Notify(_) => "notify error: "@,
            SSClipError::Trayicon(_) => "trayicon error: "@,
            SSClipError::CrossBeamRecvError(_) => ""@,
            SSClipError::PatternError { .. } => "Malformed pattern: "@,
        }
    }

    /// The fault's own description.
    pub open spec fn detail(self) -> Seq<char> {
        match self {
            SSClipError::ConfigError(d) => d@,
            SSClipError::CopyError(d) => d@,
            SSClipError::Notify(d) => d@,
            SSClipError::Trayicon(d) => d@,
            SSClipError::CrossBeamRecvError(d) => d@,
            SSClipError::PatternError { pattern, msg, .. } => pattern@ + ": "@ + msg@,
        }
    }

    /// The message shown to the user: the prefix, then the description.
    pub fn message(&self) -> (text: String)
        ensures
            text@ == self.prefix() + self.detail(),
    {
        match self {
            SSClipError::ConfigError(d) => String::from_str("Failed to load config: ").concat(
                d.as_str(),
            ),
            SSClipError::CopyError(d) => String::from_str("Failed to copy image: ").concat(
                d.as_str(),
            ),
            SSClipError::Notify(d) => String::from_str("notify error: ").concat(d.as_str()),
            SSClipError::Trayicon(d) => String::from_str("trayicon error: ").concat(d.as_str()),
            SSClipError::CrossBeamRecvError(d) => String::from_str("").concat(d.as_str()),
            SSClipError::PatternError { pattern, msg, .. } => {
                let named = String::from_str("Malformed pattern: ").concat(pattern.as_str());
                let text = named.concat(": ").concat(msg.as_str());
                text
            },
        }
    }
}

} // verus!
