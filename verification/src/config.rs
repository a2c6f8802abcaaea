//! Run configuration: which metrics to report and which inputs to read.

use vstd::prelude::*;

verus! {

/// A parsed run configuration: the input names, in command-line order, and
/// one enable flag per metric.
///
/// The front end supplies the raw flag values; `new_config` applies the
/// default policy and the exclusivity rule, so every `Config` it returns is
/// well formed: at least one metric is enabled, at least one input is named,
/// and bytes and characters are never both enabled.
#[derive(Debug)]
pub struct Config {
    pub files: Vec<String>,
    pub lines: bool,
    pub words: bool,
    pub bytes: bool,
    pub chars: bool,
}

impl Config {
    /// A usable configuration names at least one input, asks for at least
    /// one metric, and never asks for bytes and characters together.
    pub open spec fn wf(self) -> bool {
        &&& self.files@.len() >= 1
        &&& (self.lines || self.words || self.bytes || self.chars)
        &&& !(self.bytes && self.chars)
    }
}

/// The one rejected flag combination: byte and character counts are
/// mutually exclusive when both are requested explicitly.
#[derive(Debug, PartialEq, Eq, Structural)]
pub enum ConfigError {
    BytesWithChars,
}

/// Builds the configuration from the raw flag values.
///
/// Requesting bytes and characters together is a usage error. If no metric
/// is requested at all, the defaults {lines, words, bytes} are enabled and
/// characters stays disabled; otherwise the flags are taken as given.
pub fn new_config(
    files: Vec<String>,
    lines: bool,
    words: bool,
    bytes: bool,
    chars: bool,
) -> (r: Result<Config, ConfigError>)
    requires
        files@.len() >= 1,
    ensures
        r is Err <==> (bytes && chars),
        r is Err ==> r->Err_0 == ConfigError::BytesWithChars,
        r is Ok ==> r->Ok_0.wf() && r->Ok_0.files == files,
        r is Ok && !(lines || words || bytes || chars) ==> {
            &&& r->Ok_0.lines
            &&& r->Ok_0.words
            &&& r->Ok_0.bytes
            &&& !r->Ok_0.chars
        },
        r is Ok && (lines || words || bytes || chars) ==> {
            &&& r->Ok_0.lines == lines
            &&& r->Ok_0.words == words
            &&& r->Ok_0.bytes == bytes
            &&& r->Ok_0.chars == chars
        },
{
    if bytes && chars {
        Err(ConfigError::BytesWithChars)
    } else if !lines && !words && !bytes && !chars {
        Ok(Config { files, lines: true, words: true, bytes: true, chars: false })
    } else {
        Ok(Config { files, lines, words, bytes, chars })
    }
}

} // verus!
