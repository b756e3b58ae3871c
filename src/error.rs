//! The errors of loading, building, preparing and dispatching.

use vstd::prelude::*;

verus! {

/// Everything that can go wrong in the rule engine.
#[derive(Debug)]
pub enum RrrError {
    /// A malformed meta-directive line, with its text.
    InvalidMeta(String),
    /// A malformed alias declaration or alias target, with its text.
    InvalidAlias(String),
    /// A quoted string that is not exactly one shell word, with its text.
    InvalidQuotedString(String),
    /// An `import` directive while importing is disabled.
    ImportDisabled,
    /// A rule refers to an alias that its profile does not define.
    UnresolvedAlias { alias: String, profile: String },
    /// A regex pattern that does not compile.
    InvalidRegex,
    /// A glob pattern that does not compile.
    InvalidGlob,
    /// A desktop entry without a `Desktop Entry` section.
    MissingSection,
    /// A desktop entry without a required attribute, with its name.
    MissingAttribute(String),
    /// The captures of a regex rule could not be taken from the input.
    CaptureFailed,
    /// A text holding a nul character cannot be quoted for a shell.
    UnquotableText,
    /// The rule has not been prepared for execution.
    NotPrepared,
    /// The rule has not been resolved.
    NotResolved,
    /// No profile of that name exists, with the name asked for.
    UnknownProfile(String),
}

} // verus!
