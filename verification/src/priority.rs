//! Priority levels of messages, and the minimum-priority filter.

use vstd::prelude::*;

verus! {

/// A message's priority level.
///
/// The levels are ordered: `Trace < Debug < Info < Warn < Error`.
#[derive(Copy, Clone, PartialEq, Eq, Structural, PartialOrd, Ord, Hash, Default, Debug)]
pub enum PriorityLevel {
    /// A message at the "trace" level.
    #[default]
    Trace,
    /// A message at the "debug" level.
    Debug,
    /// A message at the "info" level.
    Info,
    /// A message at the "warn" level.
    Warn,
    /// A message at the "error" level.
    Error,
}

impl PriorityLevel {
    /// The position of a level in the order of levels.
    pub open spec fn rank(self) -> nat {
        match self {
            PriorityLevel::Trace => 0,
            PriorityLevel::Debug => 1,
            PriorityLevel::Info => 2,
            PriorityLevel::Warn => 3,
            PriorityLevel::Error => 4,
        }
    }

    /// The level that a lowercase name stands for, if it stands for one.
    pub open spec fn named(name: Seq<char>) -> Option<PriorityLevel> {
        if name == "trace"@ {
            Some(PriorityLevel::Trace)
        } else if name == "debug"@ {
            Some(PriorityLevel::Debug)
        } else if name == "info"@ {
            Some(PriorityLevel::Info)
        } else if name == "warn"@ {
            Some(PriorityLevel::Warn)
        } else if name == "error"@ {
            Some(PriorityLevel::Error)
        } else {
            None
        }
    }

    /// The level that the value of the environment's priority setting selects:
    /// the level that its lowercase form names, if the setting is present and
    /// names one.
    pub open spec fn selected_by(value: Option<Seq<char>>) -> Option<PriorityLevel> {
        match value {
            Some(text) => Self::named(lowercase_of(text)),
            None => None,
        }
    }

    /// The minimum level in force at a node: its own override if it has one,
    /// else the process-wide default.
    pub open spec fn effective_min(
        node_override: Option<PriorityLevel>,
        global_default: PriorityLevel,
    ) -> PriorityLevel {
        match node_override {
            Some(level) => level,
            None => global_default,
        }
    }

    /// Returns the minimum available priority level, `Trace`.
    pub fn min_level() -> (level: PriorityLevel)
        ensures
            level == PriorityLevel::Trace,
            forall|other: PriorityLevel| level.rank() <= other.rank(),
    {
        PriorityLevel::Trace
    }

    /// Returns the maximum available priority level, `Error`.
    pub fn max_level() -> (level: PriorityLevel)
        ensures
            level == PriorityLevel::Error,
            forall|other: PriorityLevel| other.rank() <= level.rank(),
    {
        PriorityLevel::Error
    }

    /// Returns all available priority levels in increasing order.
    pub fn all() -> (levels: [PriorityLevel; 5])
        ensures
            forall|i: int| 0 <= i < 5 ==> (#[trigger] levels[i]).rank() == i,
    {
        [
            PriorityLevel::Trace,
            PriorityLevel::Debug,
            PriorityLevel::Info,
            PriorityLevel::Warn,
            PriorityLevel::Error,
        ]
    }

    /// Returns the position of the level in the order of levels.
    pub fn as_raw(&self) -> (raw: u8)
        ensures
            raw == self.rank(),
    {
        match self {
            PriorityLevel::Trace => 0,
            PriorityLevel::Debug => 1,
            PriorityLevel::Info => 2,
            PriorityLevel::Warn => 3,
            PriorityLevel::Error => 4,
        }
    }

    /// Tells whether a message at level `self` passes a filter whose minimum
    /// level is `min`.
    pub fn passes(&self, min: PriorityLevel) -> (passed: bool)
        ensures
            passed == (self.rank() >= min.rank()),
    {
        self.as_raw() >= min.as_raw()
    }

    /// Determines the level selected by the value of the environment's
    /// priority setting, if the setting is present.
    ///
    /// The value is read case-insensitively. A value that names no level is
    /// treated like an absent one.
    pub fn from_env(value: Option<&str>) -> (level: Option<PriorityLevel>)
        ensures
            level == Self::selected_by(
                match value {
                    Some(text) => Some(text@),
                    None => None,
                },
            ),
    {
        match value {
            None => None,
            Some(text) => match EnvPriorityLevel::from_str(text) {
                Ok(EnvPriorityLevel(level)) => Some(level),
                Err(_) => None,
            },
        }
    }

    /// Returns the minimum level in force at a node with the given override,
    /// where `global_default` is the process-wide default.
    pub fn effective_min_level(
        node_override: Option<PriorityLevel>,
        global_default: PriorityLevel,
    ) -> (level: PriorityLevel)
        ensures
            level == Self::effective_min(node_override, global_default),
    {
        match node_override {
            Some(level) => level,
            None => global_default,
        }
    }
}

/// Determines the process-wide default minimum level from the value of the
/// environment's priority setting: the level it selects, else `Trace`.
pub fn global_min_priority_level(value: Option<&str>) -> (level: PriorityLevel)
    ensures
        level == match PriorityLevel::selected_by(
            match value {
                Some(text) => Some(text@),
                None => None,
            },
        ) {
            Some(selected) => selected,
            None => PriorityLevel::Trace,
        },
{
    match PriorityLevel::from_env(value) {
        Some(level) => level,
        None => PriorityLevel::Trace,
    }
}

/// The lowercase form of a text, as the standard library determines it.
pub uninterp spec fn lowercase_of(text: Seq<char>) -> Seq<char>;

/// Calls `str::to_lowercase` of the standard library.
///
/// Trusted: the result is the lowercase equivalent of `text`, which depends on
/// `text` alone. Nothing else is claimed of it.
#[verifier::external_body]
fn to_lowercase(text: &str) -> (lower: String)
    ensures
        lower@ == lowercase_of(text@),
{
    text.to_lowercase()
}

/// The reason why a text was not recognized as a priority level.
#[derive(Debug)]
pub struct EnvPriorityLevelError {
    /// The lowercase form of the text that names no level.
    pub unknown: String,
}

/// A priority level read from a textual setting.
#[derive(Debug)]
pub struct EnvPriorityLevel(pub PriorityLevel);

impl EnvPriorityLevel {
    /// Reads a priority level from `s`, ignoring case: the result is the
    /// level that the lowercase form of `s` names, or an error that holds
    /// that lowercase form.
    pub fn from_str(s: &str) -> (parsed: Result<EnvPriorityLevel, EnvPriorityLevelError>)
        ensures
            match parsed {
                Ok(level) => PriorityLevel::named(lowercase_of(s@)) == Some(level.0),
                Err(err) => PriorityLevel::named(lowercase_of(s@)) is None && err.unknown@
                    == lowercase_of(s@),
            },
    {
        Self::from_lowercase(to_lowercase(s))
    }

    /// Reads a priority level from its lowercase name: one of `trace`,
    /// `debug`, `info`, `warn` and `error`. Any other text is handed back as
    /// the error.
    pub fn from_lowercase(string: String) -> (parsed: Result<
        EnvPriorityLevel,
        EnvPriorityLevelError,
    >)
        ensures
            match parsed {
                Ok(level) => PriorityLevel::named(string@) == Some(level.0),
                Err(err) => PriorityLevel::named(string@) is None && err.unknown == string,
            },
    {
        if string == "trace".to_owned() {
            Ok(EnvPriorityLevel(PriorityLevel::Trace))
        } else if string == "debug".to_owned() {
            Ok(EnvPriorityLevel(PriorityLevel::Debug))
        } else if string == "info".to_owned() {
            Ok(EnvPriorityLevel(PriorityLevel::Info))
        } else if string == "warn".to_owned() {
            Ok(EnvPriorityLevel(PriorityLevel::Warn))
        } else if string == "error".to_owned() {
            Ok(EnvPriorityLevel(PriorityLevel::Error))
        } else {
            Err(EnvPriorityLevelError { unknown: string })
        }
    }
}

} // verus!
