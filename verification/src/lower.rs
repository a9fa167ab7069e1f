//! The state packer: turns a parsed flight program into the lowered,
//! index-referencing configuration.
//!
//! The packer checks the state count, builds the name table (rejecting
//! duplicates), resolves the default state — the first declared state when
//! none is named — and then, state by state in declaration order, lowers
//! every check and command into the shared pools, recording the resulting
//! indices in the owning state. Lowering is all-or-nothing: the first
//! failure aborts the whole pack with that error, and a push that would
//! exceed a pool's capacity is a fatal error, never a silent truncation.
use vstd::prelude::*;

use crate::checks::{convert_check, convert_check_spec};
use crate::error::{CapacityKind, Error, ErrorV, StateCountError};
use crate::lowered;
use crate::lowered::{
    CheckIndex, CommandIndex, CommandV, ConfigV, StateIndex, StateV, MAX_CHECKS,
    MAX_CHECKS_PER_STATE, MAX_COMMANDS, MAX_COMMANDS_PER_STATE, MAX_OBJECT_LEN, MAX_STATES,
};
use crate::resolver::{find_name, first_dup, lemma_find_name_from_bounds, state_names, StateTable};
use crate::ticks::{is_positive_seconds, seconds_to_ticks, ticks_of_bits};
use crate::upper;
use crate::upper::{CheckU, CommandU, ConfigU, StateU, TimeoutU};
use vstd::string::StrSliceExecFns;

verus! {

/// The three shared pools while packing is under way.
#[verifier::ext_equal]
pub ghost struct PackAcc {
    pub states: Seq<StateV>,
    pub checks: Seq<lowered::Check>,
    pub commands: Seq<CommandV>,
}

/// Lowers the checks of one state, from position `j` on: each lowered
/// check is appended to the shared pool and its index recorded, unless a
/// capacity would be exceeded.
pub open spec fn pack_checks_from(
    cs: Seq<CheckU>,
    names: Seq<Seq<char>>,
    pool: Seq<lowered::Check>,
    idxs: Seq<CheckIndex>,
    j: int,
) -> Result<(Seq<lowered::Check>, Seq<CheckIndex>), ErrorV>
    decreases cs.len() - j,
{
    if j < 0 || j >= cs.len() {
        Ok((pool, idxs))
    } else {
        match convert_check_spec(cs[j], names) {
            Err(e) => Err(e),
            Ok(c) => if idxs.len() >= MAX_CHECKS_PER_STATE {
                Err(ErrorV::CapacityExceeded(CapacityKind::ChecksPerState, MAX_CHECKS_PER_STATE))
            } else if pool.len() >= MAX_CHECKS {
                Err(ErrorV::CapacityExceeded(CapacityKind::Checks, MAX_CHECKS))
            } else {
                pack_checks_from(
                    cs,
                    names,
                    pool.push(c),
                    idxs.push(CheckIndex::from_int(pool.len() as int)),
                    j + 1,
                )
            },
        }
    }
}

/// Lowers the commands of one state, from position `j` on: commands are
/// carried through unchanged, but their object identifiers must fit the
/// encoder's length byte and both capacities are enforced.
pub open spec fn pack_commands_from(
    cmds: Seq<CommandU>,
    pool: Seq<CommandV>,
    idxs: Seq<CommandIndex>,
    j: int,
) -> Result<(Seq<CommandV>, Seq<CommandIndex>), ErrorV>
    decreases cmds.len() - j,
{
    if j < 0 || j >= cmds.len() {
        Ok((pool, idxs))
    } else if cmds[j].object.len() > MAX_OBJECT_LEN {
        Err(ErrorV::CapacityExceeded(CapacityKind::ObjectLength, MAX_OBJECT_LEN))
    } else if idxs.len() >= MAX_COMMANDS_PER_STATE {
        Err(ErrorV::CapacityExceeded(CapacityKind::CommandsPerState, MAX_COMMANDS_PER_STATE))
    } else if pool.len() >= MAX_COMMANDS {
        Err(ErrorV::CapacityExceeded(CapacityKind::Commands, MAX_COMMANDS))
    } else {
        pack_commands_from(
            cmds,
            pool.push(
                CommandV { object: cmds[j].object, value: cmds[j].value, delay: cmds[j].delay },
            ),
            idxs.push(CommandIndex::from_int(pool.len() as int)),
            j + 1,
        )
    }
}

/// Lowers a state's optional timeout: the seconds must be a positive
/// finite number and the target must be a declared state.
pub open spec fn lower_timeout_spec(t: Option<TimeoutU>, names: Seq<Seq<char>>) -> Result<
    Option<lowered::Timeout>,
    ErrorV,
> {
    match t {
        None => Ok(None),
        Some(tu) => if !is_positive_seconds(tu.seconds) {
            Err(ErrorV::InvalidTimeout)
        } else {
            match find_name(names, tu.state) {
                None => Err(ErrorV::StateNotFound(tu.state)),
                Some(i) => Ok(
                    Some(
                        lowered::Timeout {
                            ticks: ticks_of_bits(tu.seconds),
                            state: StateIndex::from_int(i),
                        },
                    ),
                ),
            }
        },
    }
}

/// Packs the states from position `i` on into the accumulated pools.
pub open spec fn pack_states_from(
    states: Seq<StateU>,
    names: Seq<Seq<char>>,
    acc: PackAcc,
    i: int,
) -> Result<PackAcc, ErrorV>
    decreases states.len() - i,
{
    if i < 0 || i >= states.len() {
        Ok(acc)
    } else {
        match pack_checks_from(states[i].checks, names, acc.checks, Seq::empty(), 0) {
            Err(e) => Err(e),
            Ok((checks, chk_idxs)) => match pack_commands_from(
                states[i].commands,
                acc.commands,
                Seq::empty(),
                0,
            ) {
                Err(e) => Err(e),
                Ok((commands, cmd_idxs)) => match lower_timeout_spec(states[i].timeout, names) {
                    Err(e) => Err(e),
                    Ok(timeout) => pack_states_from(
                        states,
                        names,
                        PackAcc {
                            states: acc.states.push(
                                StateV { checks: chk_idxs, commands: cmd_idxs, timeout },
                            ),
                            checks,
                            commands,
                        },
                        i + 1,
                    ),
                },
            },
        }
    }
}

/// What lowering a whole program returns: the lowered configuration, or
/// the exact error, for every possible input.
pub open spec fn lower_spec(m: ConfigU) -> Result<ConfigV, ErrorV> {
    if m.states.len() == 0 {
        Err(ErrorV::StateCount(StateCountError::NoStates))
    } else if m.states.len() > MAX_STATES {
        Err(ErrorV::StateCount(StateCountError::TooManyStates(m.states.len() as usize)))
    } else {
        let names = state_names(m.states);
        match first_dup(names) {
            Some(n) => Err(ErrorV::DuplicateStateName(n)),
            None => {
                let resolved = match m.default_state {
                    Some(n) => find_name(names, n),
                    None => Some(0int),
                };
                match resolved {
                    None => Err(ErrorV::StateNotFound(m.default_state->Some_0)),
                    Some(ds) => match pack_states_from(
                        m.states,
                        names,
                        PackAcc {
                            states: Seq::empty(),
                            checks: Seq::empty(),
                            commands: Seq::empty(),
                        },
                        0,
                    ) {
                        Err(e) => Err(e),
                        Ok(acc) => Ok(
                            ConfigV {
                                default_state: StateIndex::from_int(ds),
                                states: acc.states,
                                checks: acc.checks,
                                commands: acc.commands,
                            },
                        ),
                    },
                }
            },
        }
    }
}

/// Lowers a parsed flight program into the bounded, index-referencing
/// configuration, or fails with the first error the program contains.
/// The result is exactly [`lower_spec`] of the input, and a successful
/// result is well formed, so the encoder is total over it.
#[verifier::rlimit(60)]
pub fn verify(mid: upper::ConfigFile) -> (r: Result<lowered::ConfigFile, Error>)
    ensures
        match r {
            Ok(c) => lower_spec(mid@) == Ok::<ConfigV, ErrorV>(c@) && c@.wf(),
            Err(e) => lower_spec(mid@) == Err::<ConfigV, ErrorV>(e@),
        },
{
    let ghost m = mid@;
    if mid.states.len() == 0 {
        return Err(Error::StateCount(StateCountError::NoStates));
    }
    if mid.states.len() > MAX_STATES {
        return Err(Error::StateCount(StateCountError::TooManyStates(mid.states.len())));
    }
    let ghost names = state_names(m.states);
    proof {
        assert(m.states == mid.states@.map_values(|s: upper::State| s@));
    }
    let table = match StateTable::new(&mid.states) {
        Ok(t) => t,
        Err(e) => {
            return Err(e);
        },
    };
    let default_state: StateIndex = match &mid.default_state {
        Some(name) => {
            proof {
                lemma_find_name_from_bounds(table@, name@, 0);
            }
            match table.get_index(name) {
                Ok(ix) => ix,
                Err(e) => {
                    return Err(e);
                },
            }
        },
        None => StateIndex::from_position(0),
    };
    let ghost ds = default_state@;
    let mut states: Vec<lowered::State> = Vec::new();
    let mut checks: Vec<lowered::Check> = Vec::new();
    let mut commands: Vec<lowered::Command> = Vec::new();
    let ghost acc0 = PackAcc { states: Seq::empty(), checks: Seq::empty(), commands: Seq::empty() };
    proof {
        assert(states@.map_values(|s: lowered::State| s@) =~= Seq::<StateV>::empty());
        assert(commands@.map_values(|c: lowered::Command| c@) =~= Seq::<CommandV>::empty());
        assert((PackAcc {
            states: states@.map_values(|s: lowered::State| s@),
            checks: checks@,
            commands: commands@.map_values(|c: lowered::Command| c@),
        }) =~= acc0);
    }
    let mut i: usize = 0;
    #[verifier::loop_isolation(false)]
    while i < mid.states.len()
        invariant
            i <= m.states.len(),
            states@.len() == i,
            checks@.len() <= MAX_CHECKS,
            commands@.len() <= MAX_COMMANDS,
            pack_states_from(m.states, names, acc0, 0) == pack_states_from(
                m.states,
                names,
                PackAcc {
                    states: states@.map_values(|s: lowered::State| s@),
                    checks: checks@,
                    commands: commands@.map_values(|c: lowered::Command| c@),
                },
                i as int,
            ),
            forall|q: int|
                0 <= q < states@.len() ==> (#[trigger] states@[q])@.wf_in(
                    names.len() as int,
                    checks@.len() as int,
                    commands@.len() as int,
                ),
            forall|q: int|
                0 <= q < checks@.len() ==> (#[trigger] checks@[q]).wf_in(names.len() as int),
            forall|q: int| 0 <= q < commands@.len() ==> (#[trigger] commands@[q])@.wf(),
        decreases m.states.len() - i,
    {
        let ghost acc_entry = PackAcc {
            states: states@.map_values(|s: lowered::State| s@),
            checks: checks@,
            commands: commands@.map_values(|c: lowered::Command| c@),
        };
        let st = &mid.states[i];
        proof {
            assert(st@ == m.states[i as int]);
        }
        let ghost cs = m.states[i as int].checks;
        let ghost pool_entry = checks@;
        let mut chk_idxs: Vec<CheckIndex> = Vec::new();
        let mut j: usize = 0;
        #[verifier::loop_isolation(false)]
        while j < st.checks.len()
            invariant
                j <= cs.len(),
                chk_idxs@.len() == j,
                chk_idxs@.len() <= MAX_CHECKS_PER_STATE,
                checks@.len() <= MAX_CHECKS,
                pool_entry.len() <= checks@.len(),
                pack_checks_from(cs, names, pool_entry, Seq::empty(), 0) == pack_checks_from(
                    cs,
                    names,
                    checks@,
                    chk_idxs@,
                    j as int,
                ),
                forall|q: int|
                    0 <= q < checks@.len() ==> (#[trigger] checks@[q]).wf_in(names.len() as int),
                forall|q: int|
                    0 <= q < chk_idxs@.len() ==> 0 <= (#[trigger] chk_idxs@[q])@ < checks@.len(),
            decreases cs.len() - j,
        {
            proof {
                assert(cs[j as int] == st.checks@[j as int]@);
            }
            let c = match convert_check(&st.checks[j], &table) {
                Ok(c) => c,
                Err(e) => {
                    proof {
                        assert(pack_checks_from(cs, names, checks@, chk_idxs@, j as int)
                            == Err::<(Seq<lowered::Check>, Seq<CheckIndex>), ErrorV>(e@));
                        assert(pack_states_from(m.states, names, acc_entry, i as int)
                            == Err::<PackAcc, ErrorV>(e@));
                        assert(lower_spec(m) == Err::<ConfigV, ErrorV>(e@));
                    }
                    return Err(e);
                },
            };
            if chk_idxs.len() >= MAX_CHECKS_PER_STATE {
                let e = Error::CapacityExceeded(CapacityKind::ChecksPerState, MAX_CHECKS_PER_STATE);
                proof {
                    assert(pack_checks_from(cs, names, checks@, chk_idxs@, j as int)
                        == Err::<(Seq<lowered::Check>, Seq<CheckIndex>), ErrorV>(e@));
                    assert(pack_states_from(m.states, names, acc_entry, i as int)
                        == Err::<PackAcc, ErrorV>(e@));
                    assert(lower_spec(m) == Err::<ConfigV, ErrorV>(e@));
                }
                return Err(e);
            }
            if checks.len() >= MAX_CHECKS {
                let e = Error::CapacityExceeded(CapacityKind::Checks, MAX_CHECKS);
                proof {
                    assert(pack_checks_from(cs, names, checks@, chk_idxs@, j as int)
                        == Err::<(Seq<lowered::Check>, Seq<CheckIndex>), ErrorV>(e@));
                    assert(pack_states_from(m.states, names, acc_entry, i as int)
                        == Err::<PackAcc, ErrorV>(e@));
                    assert(lower_spec(m) == Err::<ConfigV, ErrorV>(e@));
                }
                return Err(e);
            }
            let ix = CheckIndex::from_position(checks.len());
            checks.push(c);
            chk_idxs.push(ix);
            j = j + 1;
        }
        proof {
            assert(pack_checks_from(cs, names, pool_entry, Seq::empty(), 0) == Ok::<
                (Seq<lowered::Check>, Seq<CheckIndex>),
                ErrorV,
            >((checks@, chk_idxs@)));
        }
        let ghost cmds = m.states[i as int].commands;
        let ghost cpool_entry = commands@.map_values(|c: lowered::Command| c@);
        let mut cmd_idxs: Vec<CommandIndex> = Vec::new();
        let mut k: usize = 0;
        #[verifier::loop_isolation(false)]
        while k < st.commands.len()
            invariant
                k <= cmds.len(),
                cmd_idxs@.len() == k,
                cmd_idxs@.len() <= MAX_COMMANDS_PER_STATE,
                commands@.len() <= MAX_COMMANDS,
                cpool_entry.len() <= commands@.len(),
                pack_commands_from(cmds, cpool_entry, Seq::empty(), 0) == pack_commands_from(
                    cmds,
                    commands@.map_values(|c: lowered::Command| c@),
                    cmd_idxs@,
                    k as int,
                ),
                forall|q: int| 0 <= q < commands@.len() ==> (#[trigger] commands@[q])@.wf(),
                forall|q: int|
                    0 <= q < cmd_idxs@.len() ==> 0 <= (#[trigger] cmd_idxs@[q])@ < commands@.len(),
            decreases cmds.len() - k,
        {
            proof {
                assert(cmds[k as int] == st.commands@[k as int]@);
            }
            let cmd = &st.commands[k];
            let ghost cpool_now = commands@.map_values(|c: lowered::Command| c@);
            if cmd.object.as_str().unicode_len() > MAX_OBJECT_LEN {
                let e = Error::CapacityExceeded(CapacityKind::ObjectLength, MAX_OBJECT_LEN);
                proof {
                    assert(pack_commands_from(cmds, cpool_now, cmd_idxs@, k as int)
                        == Err::<(Seq<CommandV>, Seq<CommandIndex>), ErrorV>(e@));
                    assert(pack_states_from(m.states, names, acc_entry, i as int)
                        == Err::<PackAcc, ErrorV>(e@));
                    assert(lower_spec(m) == Err::<ConfigV, ErrorV>(e@));
                }
                return Err(e);
            }
            if cmd_idxs.len() >= MAX_COMMANDS_PER_STATE {
                let e = Error::CapacityExceeded(
                    CapacityKind::CommandsPerState,
                    MAX_COMMANDS_PER_STATE,
                );
                proof {
                    assert(pack_commands_from(cmds, cpool_now, cmd_idxs@, k as int)
                        == Err::<(Seq<CommandV>, Seq<CommandIndex>), ErrorV>(e@));
                    assert(pack_states_from(m.states, names, acc_entry, i as int)
                        == Err::<PackAcc, ErrorV>(e@));
                    assert(lower_spec(m) == Err::<ConfigV, ErrorV>(e@));
                }
                return Err(e);
            }
            if commands.len() >= MAX_COMMANDS {
                let e = Error::CapacityExceeded(CapacityKind::Commands, MAX_COMMANDS);
                proof {
                    assert(pack_commands_from(cmds, cpool_now, cmd_idxs@, k as int)
                        == Err::<(Seq<CommandV>, Seq<CommandIndex>), ErrorV>(e@));
                    assert(pack_states_from(m.states, names, acc_entry, i as int)
                        == Err::<PackAcc, ErrorV>(e@));
                    assert(lower_spec(m) == Err::<ConfigV, ErrorV>(e@));
                }
                return Err(e);
            }
            let ix = CommandIndex::from_position(commands.len());
            let lc = lowered::Command {
                object: cmd.object.clone(),
                value: cmd.value,
                delay: cmd.delay,
            };
            commands.push(lc);
            cmd_idxs.push(ix);
            k = k + 1;
            proof {
                assert(commands@.map_values(|c: lowered::Command| c@) =~= cpool_now.push(
                    CommandV {
                        object: cmds[k - 1].object,
                        value: cmds[k - 1].value,
                        delay: cmds[k - 1].delay,
                    },
                ));
            }
        }
        proof {
            assert(pack_commands_from(cmds, cpool_entry, Seq::empty(), 0) == Ok::<
                (Seq<CommandV>, Seq<CommandIndex>),
                ErrorV,
            >((commands@.map_values(|c: lowered::Command| c@), cmd_idxs@)));
        }
        let timeout: Option<lowered::Timeout> = match &st.timeout {
            Some(t) => {
                let b = t.seconds;
                if !(b != 0 && (b >> 31) == 0 && ((b >> 23) & 0xff) != 0xff) {
                    let e = Error::InvalidTimeout;
                    proof {
                        assert(!is_positive_seconds(b));
                        assert(pack_states_from(m.states, names, acc_entry, i as int)
                            == Err::<PackAcc, ErrorV>(e@));
                        assert(lower_spec(m) == Err::<ConfigV, ErrorV>(e@));
                    }
                    return Err(e);
                }
                let ticks = seconds_to_ticks(b);
                proof {
                    lemma_find_name_from_bounds(table@, t.state@, 0);
                }
                let target = match table.get_index(&t.state) {
                    Ok(ix) => ix,
                    Err(e) => {
                        proof {
                            assert(pack_states_from(m.states, names, acc_entry, i as int)
                                == Err::<PackAcc, ErrorV>(e@));
                            assert(lower_spec(m) == Err::<ConfigV, ErrorV>(e@));
                        }
                        return Err(e);
                    },
                };
                Some(lowered::Timeout { ticks, state: target })
            },
            None => None,
        };
        proof {
            assert(lower_timeout_spec(m.states[i as int].timeout, names) == Ok::<
                Option<lowered::Timeout>,
                ErrorV,
            >(timeout));
        }
        let new_state = lowered::State { checks: chk_idxs, commands: cmd_idxs, timeout };
        let ghost new_state_v = new_state@;
        states.push(new_state);
        i = i + 1;
        proof {
            assert(states@.map_values(|s: lowered::State| s@) =~= acc_entry.states.push(
                new_state_v,
            ));
            assert(new_state_v.wf_in(
                names.len() as int,
                checks@.len() as int,
                commands@.len() as int,
            ));
            assert forall|q: int| 0 <= q < states@.len() implies (#[trigger] states@[q])@.wf_in(
                names.len() as int,
                checks@.len() as int,
                commands@.len() as int,
            ) by {
                assert(states@[q]@ == states@.map_values(|s: lowered::State| s@)[q]);
                if q < states@.len() - 1 {
                    assert(states@[q]@ == acc_entry.states[q]);
                    assert(acc_entry.states[q].wf_in(
                        names.len() as int,
                        acc_entry.checks.len() as int,
                        acc_entry.commands.len() as int,
                    ));
                } else {
                    assert(states@[q]@ == new_state_v);
                }
            }
        }
    }
    let c = lowered::ConfigFile { default_state, states, checks, commands };
    proof {
        assert(pack_states_from(m.states, names, acc0, 0) == Ok::<PackAcc, ErrorV>(
            PackAcc {
                states: c.states@.map_values(|s: lowered::State| s@),
                checks: c.checks@,
                commands: c.commands@.map_values(|cm: lowered::Command| cm@),
            },
        ));
        assert(c@.states.len() == m.states.len());
        assert(c@ =~= (ConfigV {
            default_state: StateIndex::from_int(ds),
            states: c@.states,
            checks: c@.checks,
            commands: c@.commands,
        }));
    }
    Ok(c)
}


/// Capacity of the index space: a program declaring no states fails with
/// `NoStates`, and one declaring more states than a one-byte index can
/// reach fails with `TooManyStates` carrying the declared count.
pub proof fn lemma_state_count(m: ConfigU)
    ensures
        m.states.len() == 0 ==> lower_spec(m) == Err::<ConfigV, ErrorV>(
            ErrorV::StateCount(StateCountError::NoStates),
        ),
        m.states.len() > MAX_STATES ==> lower_spec(m) == Err::<ConfigV, ErrorV>(
            ErrorV::StateCount(StateCountError::TooManyStates(m.states.len() as usize)),
        ),
{
}

/// Default-state fallback: a program without a `default_state` field that
/// lowers successfully starts in the first declared state — declaration
/// order is semantically meaningful.
pub proof fn lemma_default_state_fallback(m: ConfigU, v: ConfigV)
    requires
        m.default_state is None,
        lower_spec(m) == Ok::<ConfigV, ErrorV>(v),
    ensures
        v.default_state@ == 0,
{
    StateIndex::lemma_from_int_view(0);
}

} // verus!
