//! The lowered configuration: fully resolved, capacity-bounded, and
//! index-referencing, ready for binary encoding.
//!
//! All name references of the upper representation are replaced here by
//! single-byte indices into bounded pools, so the embedded consumer needs
//! no string comparison and no allocation. Index values are created only
//! through checked constructors: [`StateIndex::new`] and its siblings test
//! against the owning pool's length, and the crate-internal constructors
//! demand a proof of the bound instead.
use vstd::prelude::*;

verus! {

/// Most states a program may declare; state indices are one byte.
pub const MAX_STATES: usize = 255;

/// Capacity of the shared check pool.
pub const MAX_CHECKS: usize = 255;

/// Capacity of the shared command pool.
pub const MAX_COMMANDS: usize = 255;

/// Most checks a single state may own.
pub const MAX_CHECKS_PER_STATE: usize = 16;

/// Most commands a single state may own.
pub const MAX_COMMANDS_PER_STATE: usize = 16;

/// Longest object identifier a command may carry.
pub const MAX_OBJECT_LEN: usize = 255;

/// A one-byte handle into the state pool.
#[derive(Clone, Copy, Debug, PartialEq, Eq, Structural)]
pub struct StateIndex(u8);

/// A one-byte handle into the shared check pool.
#[derive(Clone, Copy, Debug, PartialEq, Eq, Structural)]
pub struct CheckIndex(u8);

/// A one-byte handle into the shared command pool.
#[derive(Clone, Copy, Debug, PartialEq, Eq, Structural)]
pub struct CommandIndex(u8);

impl View for StateIndex {
    type V = int;

    closed spec fn view(&self) -> int {
        self.0 as int
    }
}

impl StateIndex {
    /// The index as a mathematical value, for spec-level construction.
    pub closed spec fn from_int(i: int) -> StateIndex {
        StateIndex(i as u8)
    }

    /// Checked factory: accepts the raw byte only when it indexes into a
    /// pool of the given length.
    pub fn new(value: u8, pool_len: usize) -> (r: Option<StateIndex>)
        ensures
            r is Some <==> (value as usize) < pool_len,
            r matches Some(ix) ==> ix == StateIndex::from_int(value as int) && ix@ == value as int,
    {
        if (value as usize) < pool_len {
            Some(StateIndex(value))
        } else {
            None
        }
    }

    /// Constructor for positions the caller has already proved in bounds.
    pub(crate) fn from_position(i: usize) -> (r: StateIndex)
        requires
            i < 256,
        ensures
            r@ == i as int,
            r == StateIndex::from_int(i as int),
    {
        StateIndex(i as u8)
    }

    /// The raw byte value of the index.
    pub fn get(&self) -> (r: u8)
        ensures
            r as int == self@,
    {
        self.0
    }

    /// `from_int` inverts the view.
    pub broadcast proof fn lemma_from_int_view(i: int)
        requires
            0 <= i < 256,
        ensures
            (#[trigger] StateIndex::from_int(i))@ == i,
    {
    }

    /// An index is `from_int` of its own view.
    pub proof fn lemma_from_int_inverse(ix: StateIndex)
        ensures
            StateIndex::from_int(ix@) == ix,
    {
    }
}

impl View for CheckIndex {
    type V = int;

    closed spec fn view(&self) -> int {
        self.0 as int
    }
}

impl CheckIndex {
    /// The index as a mathematical value, for spec-level construction.
    pub closed spec fn from_int(i: int) -> CheckIndex {
        CheckIndex(i as u8)
    }

    /// Checked factory: accepts the raw byte only when it indexes into a
    /// pool of the given length.
    pub fn new(value: u8, pool_len: usize) -> (r: Option<CheckIndex>)
        ensures
            r is Some <==> (value as usize) < pool_len,
            r matches Some(ix) ==> ix == CheckIndex::from_int(value as int) && ix@ == value as int,
    {
        if (value as usize) < pool_len {
            Some(CheckIndex(value))
        } else {
            None
        }
    }

    /// Constructor for positions the caller has already proved in bounds.
    pub(crate) fn from_position(i: usize) -> (r: CheckIndex)
        requires
            i < 256,
        ensures
            r@ == i as int,
            r == CheckIndex::from_int(i as int),
    {
        CheckIndex(i as u8)
    }

    /// The raw byte value of the index.
    pub fn get(&self) -> (r: u8)
        ensures
            r as int == self@,
    {
        self.0
    }

    /// `from_int` inverts the view.
    pub broadcast proof fn lemma_from_int_view(i: int)
        requires
            0 <= i < 256,
        ensures
            (#[trigger] CheckIndex::from_int(i))@ == i,
    {
    }

    /// An index is `from_int` of its own view.
    pub proof fn lemma_from_int_inverse(ix: CheckIndex)
        ensures
            CheckIndex::from_int(ix@) == ix,
    {
    }
}

impl View for CommandIndex {
    type V = int;

    closed spec fn view(&self) -> int {
        self.0 as int
    }
}

impl CommandIndex {
    /// The index as a mathematical value, for spec-level construction.
    pub closed spec fn from_int(i: int) -> CommandIndex {
        CommandIndex(i as u8)
    }

    /// Checked factory: accepts the raw byte only when it indexes into a
    /// pool of the given length.
    pub fn new(value: u8, pool_len: usize) -> (r: Option<CommandIndex>)
        ensures
            r is Some <==> (value as usize) < pool_len,
            r matches Some(ix) ==> ix == CommandIndex::from_int(value as int) && ix@ == value as int,
    {
        if (value as usize) < pool_len {
            Some(CommandIndex(value))
        } else {
            None
        }
    }

    /// Constructor for positions the caller has already proved in bounds.
    pub(crate) fn from_position(i: usize) -> (r: CommandIndex)
        requires
            i < 256,
        ensures
            r@ == i as int,
            r == CommandIndex::from_int(i as int),
    {
        CommandIndex(i as u8)
    }

    /// The raw byte value of the index.
    pub fn get(&self) -> (r: u8)
        ensures
            r as int == self@,
    {
        self.0
    }

    /// `from_int` inverts the view.
    pub broadcast proof fn lemma_from_int_view(i: int)
        requires
            0 <= i < 256,
        ensures
            (#[trigger] CommandIndex::from_int(i))@ == i,
    {
    }

    /// An index is `from_int` of its own view.
    pub proof fn lemma_from_int_inverse(ix: CommandIndex)
        ensures
            CommandIndex::from_int(ix@) == ix,
    {
    }
}

/// A condition over a fractional metric reading. Values are bits of an `f32`.
#[derive(Clone, Copy, Debug, PartialEq, Eq, Structural)]
pub enum FloatCondition {
    /// Trips when the reading exceeds the value.
    GreaterThan(u32),
    /// Trips when the reading is under the value.
    LessThan(u32),
    /// Trips when the reading lies between the two values.
    Between { upper_bound: u32, lower_bound: u32 },
}

/// A condition over a boolean flag: trips when the flag equals the value.
#[derive(Clone, Copy, Debug, PartialEq, Eq, Structural)]
pub struct FlagCondition(pub bool);

/// A lowered check's condition, tagged by the metric it observes. Each
/// variant admits only the condition shapes valid for that metric.
#[derive(Clone, Copy, Debug, PartialEq, Eq, Structural)]
pub enum CheckData {
    Altitude(FloatCondition),
    ApogeeFlag(FlagCondition),
    Pyro1Continuity(FlagCondition),
    Pyro2Continuity(FlagCondition),
    Pyro3Continuity(FlagCondition),
}

/// What happens when a check trips: a transition or an abort, never both.
#[derive(Clone, Copy, Debug, PartialEq, Eq, Structural)]
pub enum StateTransition {
    Transition(StateIndex),
    Abort(StateIndex),
}

/// A fully lowered check; self-contained, no string data.
#[derive(Clone, Copy, Debug, PartialEq, Eq, Structural)]
pub struct Check {
    /// The condition, already type-checked against its metric.
    pub data: CheckData,
    /// The resolved outcome, if the check has one.
    pub transition: Option<StateTransition>,
}

impl Check {
    pub fn new(data: CheckData, transition: Option<StateTransition>) -> (r: Check)
        ensures
            r == (Check { data, transition }),
    {
        Check { data, transition }
    }
}

/// A lowered timeout: a tick count and a resolved target state.
#[derive(Clone, Copy, Debug, PartialEq, Eq, Structural)]
pub struct Timeout {
    /// How long the state may run, in ticks of the runtime clock.
    pub ticks: u32,
    /// The state entered when the time is up.
    pub state: StateIndex,
}

/// A lowered command: carried through from the upper form unchanged.
#[derive(Clone, Debug, PartialEq, Eq)]
pub struct Command {
    /// Identifier of the object the command addresses.
    pub object: String,
    /// Value written to the object (bits of an `f32`).
    pub value: u32,
    /// Delay before the write, in seconds (bits of an `f32`).
    pub delay: u32,
}

/// A lowered state: bounded index lists into the shared pools.
#[derive(Clone, Debug, PartialEq, Eq)]
pub struct State {
    /// Indices of this state's checks in the shared check pool.
    pub checks: Vec<CheckIndex>,
    /// Indices of this state's commands in the shared command pool.
    pub commands: Vec<CommandIndex>,
    /// Automatic transition after a fixed time, if any.
    pub timeout: Option<Timeout>,
}

impl State {
    pub fn new(checks: Vec<CheckIndex>, commands: Vec<CommandIndex>, timeout: Option<Timeout>) -> (r:
        State)
        ensures
            r.checks == checks,
            r.commands == commands,
            r.timeout == timeout,
    {
        State { checks, commands, timeout }
    }
}

/// The lowered configuration: the durable output of a compile call.
#[derive(Clone, Debug, PartialEq, Eq)]
pub struct ConfigFile {
    /// The state the machine starts in.
    pub default_state: StateIndex,
    /// The states, in declaration order.
    pub states: Vec<State>,
    /// The shared pool of lowered checks.
    pub checks: Vec<Check>,
    /// The shared pool of lowered commands.
    pub commands: Vec<Command>,
}

/// Mathematical image of a lowered [`Command`].
#[verifier::ext_equal]
pub ghost struct CommandV {
    pub object: Seq<char>,
    pub value: u32,
    pub delay: u32,
}

/// Mathematical image of a lowered [`State`].
#[verifier::ext_equal]
pub ghost struct StateV {
    pub checks: Seq<CheckIndex>,
    pub commands: Seq<CommandIndex>,
    pub timeout: Option<Timeout>,
}

/// Mathematical image of a lowered [`ConfigFile`].
#[verifier::ext_equal]
pub ghost struct ConfigV {
    pub default_state: StateIndex,
    pub states: Seq<StateV>,
    pub checks: Seq<Check>,
    pub commands: Seq<CommandV>,
}

impl View for Command {
    type V = CommandV;

    open spec fn view(&self) -> CommandV {
        CommandV { object: self.object@, value: self.value, delay: self.delay }
    }
}

impl View for State {
    type V = StateV;

    open spec fn view(&self) -> StateV {
        StateV { checks: self.checks@, commands: self.commands@, timeout: self.timeout }
    }
}

impl View for ConfigFile {
    type V = ConfigV;

    open spec fn view(&self) -> ConfigV {
        ConfigV {
            default_state: self.default_state,
            states: self.states@.map_values(|s: State| s@),
            checks: self.checks@,
            commands: self.commands@.map_values(|c: Command| c@),
        }
    }
}

impl Check {
    /// Every index a check holds points into a state pool of length `n_states`.
    pub open spec fn wf_in(&self, n_states: int) -> bool {
        match self.transition {
            Some(StateTransition::Transition(ix)) => 0 <= ix@ < n_states,
            Some(StateTransition::Abort(ix)) => 0 <= ix@ < n_states,
            None => true,
        }
    }
}

impl CommandV {
    /// A command's object identifier fits the encoder's length byte.
    pub open spec fn wf(&self) -> bool {
        self.object.len() <= MAX_OBJECT_LEN
    }
}

impl StateV {
    /// Every index a state holds points into its pool, and the per-state
    /// lists respect their capacities.
    pub open spec fn wf_in(&self, n_states: int, n_checks: int, n_commands: int) -> bool {
        &&& self.checks.len() <= MAX_CHECKS_PER_STATE
        &&& self.commands.len() <= MAX_COMMANDS_PER_STATE
        &&& forall|i: int| 0 <= i < self.checks.len() ==> 0 <= (#[trigger] self.checks[i])@ < n_checks
        &&& forall|i: int|
            0 <= i < self.commands.len() ==> 0 <= (#[trigger] self.commands[i])@ < n_commands
        &&& match self.timeout {
            Some(t) => 0 <= t.state@ < n_states,
            None => true,
        }
    }
}

impl ConfigV {
    /// Well-formedness of a lowered configuration: every pool respects its
    /// capacity and every index points into its pool. The encoder is total
    /// over exactly these values.
    pub open spec fn wf(&self) -> bool {
        &&& 1 <= self.states.len() <= MAX_STATES
        &&& self.checks.len() <= MAX_CHECKS
        &&& self.commands.len() <= MAX_COMMANDS
        &&& 0 <= self.default_state@ < self.states.len()
        &&& forall|i: int|
            0 <= i < self.states.len() ==> (#[trigger] self.states[i]).wf_in(
                self.states.len() as int,
                self.checks.len() as int,
                self.commands.len() as int,
            )
        &&& forall|i: int|
            0 <= i < self.checks.len() ==> (#[trigger] self.checks[i]).wf_in(
                self.states.len() as int,
            )
        &&& forall|i: int| 0 <= i < self.commands.len() ==> (#[trigger] self.commands[i]).wf()
    }
}

} // verus!
