//! The upper intermediate representation: a name-referencing, unvalidated
//! flight program as it comes out of the text parser.
//!
//! Values of these types may still reference undeclared state names, set
//! contradictory condition fields, or carry non-positive timeouts; the
//! lowering stage in [`crate::lower`] checks all of that. Fractional values
//! (thresholds, seconds) are carried as IEEE 754 single-precision bit
//! patterns, so that the compiler itself never computes with floating point.
use vstd::prelude::*;

verus! {

/// The external metric a check observes.
#[derive(Clone, Copy, Debug, PartialEq, Eq, Structural)]
pub enum Metric {
    Altitude,
    Apogee,
    Pyro1Continuity,
    Pyro2Continuity,
    Pyro3Continuity,
}

/// The requested polarity of a flag condition: `On` for `flag = "set"`,
/// `Off` for `flag = "unset"`.
#[derive(Clone, Copy, Debug, PartialEq, Eq, Structural)]
pub enum FlagSetting {
    On,
    Off,
}

/// A predicate over a metric, with an optional outcome, as written by the
/// operator. Exactly one condition shape must be set: `greater_than`, the
/// pair `lower_bound`/`upper_bound`, or `flag`; the lowering stage enforces
/// this.
#[derive(Clone, Debug, PartialEq, Eq)]
pub struct Check {
    /// Diagnostic label; carries no semantic meaning and is dropped when the
    /// check is lowered.
    pub name: String,
    /// The metric this check observes.
    pub check: Metric,
    /// Name of the state to transition to when the check trips.
    pub transition: Option<String>,
    /// Name of the state to abort to when the check trips.
    pub abort: Option<String>,
    /// Trips when the metric exceeds this value (bits of an `f32`).
    pub greater_than: Option<u32>,
    /// Upper end of a range condition (bits of an `f32`).
    pub upper_bound: Option<u32>,
    /// Lower end of a range condition (bits of an `f32`).
    pub lower_bound: Option<u32>,
    /// Trips when a boolean flag has the given polarity.
    pub flag: Option<FlagSetting>,
}

/// An automatic transition after a fixed time in a state.
#[derive(Clone, Debug, PartialEq, Eq)]
pub struct Timeout {
    /// How long the state may run, in seconds (bits of an `f32`).
    pub seconds: u32,
    /// Name of the state to transition to when the time is up.
    pub state: String,
}

/// A command run on entry of a state, carried through lowering unchanged.
#[derive(Clone, Debug, PartialEq, Eq)]
pub struct Command {
    /// Identifier of the object the command addresses.
    pub object: String,
    /// Value written to the object (bits of an `f32`).
    pub value: u32,
    /// Delay before the write, in seconds (bits of an `f32`).
    pub delay: u32,
}

/// One named state of the flight program.
#[derive(Clone, Debug, PartialEq, Eq)]
pub struct State {
    /// The name of this state; must be unique within the program.
    pub name: String,
    /// Automatic transition after a fixed time, if any.
    pub timeout: Option<Timeout>,
    /// The checks evaluated while this state is active, in order.
    pub checks: Vec<Check>,
    /// The commands run by this state, in order.
    pub commands: Vec<Command>,
}

/// A whole flight program as parsed from text, before any name resolution
/// or semantic validation.
#[derive(Clone, Debug, PartialEq, Eq)]
pub struct ConfigFile {
    /// Name of the state the machine starts in; when absent, the first
    /// declared state is the default.
    pub default_state: Option<String>,
    /// The declared states, in order. Order is significant: it fixes the
    /// numeric index of every state.
    pub states: Vec<State>,
}

/// Mathematical image of [`Check`].
#[verifier::ext_equal]
pub ghost struct CheckU {
    pub name: Seq<char>,
    pub check: Metric,
    pub transition: Option<Seq<char>>,
    pub abort: Option<Seq<char>>,
    pub greater_than: Option<u32>,
    pub upper_bound: Option<u32>,
    pub lower_bound: Option<u32>,
    pub flag: Option<FlagSetting>,
}

/// Mathematical image of [`Timeout`].
#[verifier::ext_equal]
pub ghost struct TimeoutU {
    pub seconds: u32,
    pub state: Seq<char>,
}

/// Mathematical image of [`Command`].
#[verifier::ext_equal]
pub ghost struct CommandU {
    pub object: Seq<char>,
    pub value: u32,
    pub delay: u32,
}

/// Mathematical image of [`State`].
#[verifier::ext_equal]
pub ghost struct StateU {
    pub name: Seq<char>,
    pub timeout: Option<TimeoutU>,
    pub checks: Seq<CheckU>,
    pub commands: Seq<CommandU>,
}

/// Mathematical image of [`ConfigFile`].
#[verifier::ext_equal]
pub ghost struct ConfigU {
    pub default_state: Option<Seq<char>>,
    pub states: Seq<StateU>,
}

impl View for Check {
    type V = CheckU;

    open spec fn view(&self) -> CheckU {
        CheckU {
            name: self.name@,
            check: self.check,
            transition: match self.transition {
                Some(ref s) => Some(s@),
                None => None,
            },
            abort: match self.abort {
                Some(ref s) => Some(s@),
                None => None,
            },
            greater_than: self.greater_than,
            upper_bound: self.upper_bound,
            lower_bound: self.lower_bound,
            flag: self.flag,
        }
    }
}

impl View for Timeout {
    type V = TimeoutU;

    open spec fn view(&self) -> TimeoutU {
        TimeoutU { seconds: self.seconds, state: self.state@ }
    }
}

impl View for Command {
    type V = CommandU;

    open spec fn view(&self) -> CommandU {
        CommandU { object: self.object@, value: self.value, delay: self.delay }
    }
}

impl View for State {
    type V = StateU;

    open spec fn view(&self) -> StateU {
        StateU {
            name: self.name@,
            timeout: match self.timeout {
                Some(ref t) => Some(t@),
                None => None,
            },
            checks: self.checks@.map_values(|c: Check| c@),
            commands: self.commands@.map_values(|c: Command| c@),
        }
    }
}

impl View for ConfigFile {
    type V = ConfigU;

    open spec fn view(&self) -> ConfigU {
        ConfigU {
            default_state: match self.default_state {
                Some(ref s) => Some(s@),
                None => None,
            },
            states: self.states@.map_values(|s: State| s@),
        }
    }
}

} // verus!
