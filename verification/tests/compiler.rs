use nova_verifier::compile;
use nova_verifier::error::{CapacityKind, CheckConditionError, Error, StateCountError};
use nova_verifier::lower;
use nova_verifier::lowered::{CheckData, FlagCondition, FloatCondition, StateTransition};
use nova_verifier::upper::{Check, ConfigFile, FlagSetting, Metric, State, Timeout};

fn bare_check(metric: Metric) -> Check {
    Check {
        name: "check".to_string(),
        check: metric,
        transition: None,
        abort: None,
        greater_than: None,
        upper_bound: None,
        lower_bound: None,
        flag: None,
    }
}

fn state_with_checks(name: &str, checks: Vec<Check>) -> State {
    State { name: name.to_string(), timeout: None, checks, commands: Vec::new() }
}

fn single_state_config(checks: Vec<Check>) -> ConfigFile {
    ConfigFile {
        default_state: None,
        states: vec![state_with_checks("PowerOn", checks)],
    }
}

#[test]
fn end_to_end_altitude_check() {
    let mut check = bare_check(Metric::Altitude);
    check.name = "Takeoff".to_string();
    check.greater_than = Some(100.0f32.to_bits());
    let config = ConfigFile {
        default_state: Some("PowerOn".to_string()),
        states: vec![state_with_checks("PowerOn", vec![check])],
    };
    let bytes = compile(config).unwrap();
    let decoded = nova_verifier::decode::decode(&bytes).unwrap();
    assert_eq!(decoded.default_state.get(), 0);
    assert_eq!(decoded.states.len(), 1);
    assert_eq!(decoded.checks.len(), 1);
    assert_eq!(decoded.commands.len(), 0);
    assert_eq!(decoded.states[0].checks.len(), 1);
    assert_eq!(decoded.states[0].checks[0].get(), 0);
    assert_eq!(
        decoded.checks[0].data,
        CheckData::Altitude(FloatCondition::GreaterThan(100.0f32.to_bits()))
    );
    assert_eq!(decoded.checks[0].transition, None);
}

#[test]
fn compile_is_deterministic() {
    let make = || {
        let mut check = bare_check(Metric::Apogee);
        check.flag = Some(FlagSetting::On);
        check.transition = Some("Recovery".to_string());
        ConfigFile {
            default_state: Some("Flight".to_string()),
            states: vec![
                state_with_checks("Flight", vec![check]),
                state_with_checks("Recovery", vec![]),
            ],
        }
    };
    let b1 = compile(make()).unwrap();
    let b2 = compile(make()).unwrap();
    assert_eq!(b1, b2);
}

#[test]
fn default_state_falls_back_to_first_declared() {
    let config = ConfigFile {
        default_state: None,
        states: vec![
            state_with_checks("A", vec![]),
            state_with_checks("B", vec![]),
            state_with_checks("C", vec![]),
        ],
    };
    let lowered = lower::verify(config).unwrap();
    assert_eq!(lowered.default_state.get(), 0);
    assert_eq!(lowered.states.len(), 3);
}

#[test]
fn named_default_state_is_resolved() {
    let config = ConfigFile {
        default_state: Some("B".to_string()),
        states: vec![state_with_checks("A", vec![]), state_with_checks("B", vec![])],
    };
    let lowered = lower::verify(config).unwrap();
    assert_eq!(lowered.default_state.get(), 1);
}

#[test]
fn unknown_default_state_is_an_error() {
    let config = ConfigFile {
        default_state: Some("Missing".to_string()),
        states: vec![state_with_checks("A", vec![])],
    };
    assert_eq!(
        lower::verify(config),
        Err(Error::StateNotFound("Missing".to_string()))
    );
}

#[test]
fn two_conditions_fail_with_too_many() {
    let mut check = bare_check(Metric::Altitude);
    check.greater_than = Some(100.0f32.to_bits());
    check.flag = Some(FlagSetting::On);
    assert_eq!(
        lower::verify(single_state_config(vec![check])),
        Err(Error::CheckCondition(CheckConditionError::TooManyConditions(2)))
    );
}

#[test]
fn no_condition_fails_with_no_condition() {
    let check = bare_check(Metric::Altitude);
    assert_eq!(
        lower::verify(single_state_config(vec![check])),
        Err(Error::CheckCondition(CheckConditionError::NoCondition))
    );
}

#[test]
fn lower_bound_without_upper_fails() {
    let mut check = bare_check(Metric::Altitude);
    check.lower_bound = Some(10.0f32.to_bits());
    assert_eq!(
        lower::verify(single_state_config(vec![check])),
        Err(Error::CheckCondition(CheckConditionError::UnmatchedBound))
    );
}

#[test]
fn upper_bound_without_lower_fails() {
    let mut check = bare_check(Metric::Altitude);
    check.upper_bound = Some(10.0f32.to_bits());
    assert_eq!(
        lower::verify(single_state_config(vec![check])),
        Err(Error::CheckCondition(CheckConditionError::UnmatchedBound))
    );
}

#[test]
fn greater_than_on_continuity_is_a_type_mismatch() {
    let mut check = bare_check(Metric::Pyro1Continuity);
    check.greater_than = Some(100.0f32.to_bits());
    assert_eq!(
        lower::verify(single_state_config(vec![check])),
        Err(Error::CheckTypeMismatch)
    );
}

#[test]
fn flag_on_continuity_lowers_to_flag_condition() {
    let mut check = bare_check(Metric::Pyro1Continuity);
    check.flag = Some(FlagSetting::On);
    let lowered = lower::verify(single_state_config(vec![check])).unwrap();
    assert_eq!(lowered.checks.len(), 1);
    assert_eq!(
        lowered.checks[0].data,
        CheckData::Pyro1Continuity(FlagCondition(true))
    );
}

#[test]
fn flag_unset_lowers_to_false() {
    let mut check = bare_check(Metric::Apogee);
    check.flag = Some(FlagSetting::Off);
    let lowered = lower::verify(single_state_config(vec![check])).unwrap();
    assert_eq!(lowered.checks[0].data, CheckData::ApogeeFlag(FlagCondition(false)));
}

#[test]
fn flag_on_altitude_is_a_type_mismatch() {
    let mut check = bare_check(Metric::Altitude);
    check.flag = Some(FlagSetting::On);
    assert_eq!(
        lower::verify(single_state_config(vec![check])),
        Err(Error::CheckTypeMismatch)
    );
}

#[test]
fn between_lowers_with_both_bounds() {
    let mut check = bare_check(Metric::Altitude);
    check.upper_bound = Some(200.0f32.to_bits());
    check.lower_bound = Some(50.0f32.to_bits());
    let lowered = lower::verify(single_state_config(vec![check])).unwrap();
    assert_eq!(
        lowered.checks[0].data,
        CheckData::Altitude(FloatCondition::Between {
            upper_bound: 200.0f32.to_bits(),
            lower_bound: 50.0f32.to_bits(),
        })
    );
}

#[test]
fn unknown_transition_target_fails() {
    let mut check = bare_check(Metric::Apogee);
    check.flag = Some(FlagSetting::On);
    check.transition = Some("Nowhere".to_string());
    assert_eq!(
        lower::verify(single_state_config(vec![check])),
        Err(Error::StateNotFound("Nowhere".to_string()))
    );
}

#[test]
fn transition_resolves_to_declared_state() {
    let mut check = bare_check(Metric::Apogee);
    check.flag = Some(FlagSetting::On);
    check.transition = Some("Recovery".to_string());
    let config = ConfigFile {
        default_state: None,
        states: vec![
            state_with_checks("Flight", vec![check]),
            state_with_checks("Recovery", vec![]),
        ],
    };
    let lowered = lower::verify(config).unwrap();
    match lowered.checks[0].transition {
        Some(StateTransition::Transition(ix)) => assert_eq!(ix.get(), 1),
        other => panic!("expected a transition outcome, got {:?}", other),
    }
}

#[test]
fn abort_resolves_to_declared_state() {
    let mut check = bare_check(Metric::Pyro2Continuity);
    check.flag = Some(FlagSetting::Off);
    check.abort = Some("Safe".to_string());
    let config = ConfigFile {
        default_state: None,
        states: vec![state_with_checks("Armed", vec![check]), state_with_checks("Safe", vec![])],
    };
    let lowered = lower::verify(config).unwrap();
    match lowered.checks[0].transition {
        Some(StateTransition::Abort(ix)) => assert_eq!(ix.get(), 1),
        other => panic!("expected an abort outcome, got {:?}", other),
    }
}

#[test]
fn transition_and_abort_together_fail() {
    let mut check = bare_check(Metric::Apogee);
    check.flag = Some(FlagSetting::On);
    check.transition = Some("Missing1".to_string());
    check.abort = Some("Missing2".to_string());
    assert_eq!(
        lower::verify(single_state_config(vec![check])),
        Err(Error::ConflictingOutcome)
    );
}

#[test]
fn zero_states_fail_with_no_states() {
    let config = ConfigFile { default_state: None, states: Vec::new() };
    assert_eq!(
        lower::verify(config),
        Err(Error::StateCount(StateCountError::NoStates))
    );
}

#[test]
fn too_many_states_fail_with_count() {
    let mut states = Vec::new();
    for i in 0..256 {
        states.push(state_with_checks(&format!("S{}", i), vec![]));
    }
    let config = ConfigFile { default_state: None, states };
    assert_eq!(
        lower::verify(config),
        Err(Error::StateCount(StateCountError::TooManyStates(256)))
    );
}

#[test]
fn duplicate_state_names_fail() {
    let config = ConfigFile {
        default_state: None,
        states: vec![
            state_with_checks("A", vec![]),
            state_with_checks("B", vec![]),
            state_with_checks("A", vec![]),
        ],
    };
    assert_eq!(
        lower::verify(config),
        Err(Error::DuplicateStateName("A".to_string()))
    );
}

#[test]
fn too_many_checks_in_one_state_fail() {
    let mut checks = Vec::new();
    for _ in 0..17 {
        let mut check = bare_check(Metric::Apogee);
        check.flag = Some(FlagSetting::On);
        checks.push(check);
    }
    assert_eq!(
        lower::verify(single_state_config(checks)),
        Err(Error::CapacityExceeded(CapacityKind::ChecksPerState, 16))
    );
}

#[test]
fn timeout_lowers_to_centisecond_ticks() {
    let config = ConfigFile {
        default_state: None,
        states: vec![
            State {
                name: "Boost".to_string(),
                timeout: Some(Timeout { seconds: 1.5f32.to_bits(), state: "Coast".to_string() }),
                checks: Vec::new(),
                commands: Vec::new(),
            },
            state_with_checks("Coast", vec![]),
        ],
    };
    let lowered = lower::verify(config).unwrap();
    let timeout = lowered.states[0].timeout.unwrap();
    assert_eq!(timeout.ticks, 150);
    assert_eq!(timeout.state.get(), 1);
}

#[test]
fn non_positive_timeout_fails() {
    let config = ConfigFile {
        default_state: None,
        states: vec![State {
            name: "Boost".to_string(),
            timeout: Some(Timeout { seconds: (-1.0f32).to_bits(), state: "Boost".to_string() }),
            checks: Vec::new(),
            commands: Vec::new(),
        }],
    };
    assert_eq!(lower::verify(config), Err(Error::InvalidTimeout));
}

#[test]
fn zero_timeout_fails() {
    let config = ConfigFile {
        default_state: None,
        states: vec![State {
            name: "Boost".to_string(),
            timeout: Some(Timeout { seconds: 0.0f32.to_bits(), state: "Boost".to_string() }),
            checks: Vec::new(),
            commands: Vec::new(),
        }],
    };
    assert_eq!(lower::verify(config), Err(Error::InvalidTimeout));
}

#[test]
fn timeout_target_must_be_declared() {
    let config = ConfigFile {
        default_state: None,
        states: vec![State {
            name: "Boost".to_string(),
            timeout: Some(Timeout { seconds: 2.0f32.to_bits(), state: "Gone".to_string() }),
            checks: Vec::new(),
            commands: Vec::new(),
        }],
    };
    assert_eq!(lower::verify(config), Err(Error::StateNotFound("Gone".to_string())));
}

#[test]
fn too_many_commands_in_one_state_fail() {
    let mut commands = Vec::new();
    for i in 0..17 {
        commands.push(nova_verifier::upper::Command {
            object: format!("obj{}", i),
            value: 0.0f32.to_bits(),
            delay: 0.0f32.to_bits(),
        });
    }
    let config = ConfigFile {
        default_state: None,
        states: vec![State {
            name: "S".to_string(),
            timeout: None,
            checks: Vec::new(),
            commands,
        }],
    };
    assert_eq!(
        lower::verify(config),
        Err(Error::CapacityExceeded(CapacityKind::CommandsPerState, 16))
    );
}

#[test]
fn check_pool_capacity_is_enforced() {
    // sixteen states of sixteen checks each ask for 256 pool slots; the
    // shared pool holds 255
    let mut states = Vec::new();
    for i in 0..16 {
        let mut checks = Vec::new();
        for _ in 0..16 {
            let mut check = bare_check(Metric::Apogee);
            check.flag = Some(FlagSetting::On);
            checks.push(check);
        }
        states.push(state_with_checks(&format!("S{}", i), checks));
    }
    let config = ConfigFile { default_state: None, states };
    assert_eq!(
        lower::verify(config),
        Err(Error::CapacityExceeded(CapacityKind::Checks, 255))
    );
}

#[test]
fn command_pool_capacity_is_enforced() {
    let mut states = Vec::new();
    for i in 0..16 {
        let mut commands = Vec::new();
        for j in 0..16 {
            commands.push(nova_verifier::upper::Command {
                object: format!("o{}x{}", i, j),
                value: 0.0f32.to_bits(),
                delay: 0.0f32.to_bits(),
            });
        }
        states.push(State {
            name: format!("S{}", i),
            timeout: None,
            checks: Vec::new(),
            commands,
        });
    }
    let config = ConfigFile { default_state: None, states };
    assert_eq!(
        lower::verify(config),
        Err(Error::CapacityExceeded(CapacityKind::Commands, 255))
    );
}

#[test]
fn overlong_command_object_fails() {
    let config = ConfigFile {
        default_state: None,
        states: vec![State {
            name: "S".to_string(),
            timeout: None,
            checks: Vec::new(),
            commands: vec![nova_verifier::upper::Command {
                object: "x".repeat(256),
                value: 0.0f32.to_bits(),
                delay: 0.0f32.to_bits(),
            }],
        }],
    };
    assert_eq!(
        lower::verify(config),
        Err(Error::CapacityExceeded(CapacityKind::ObjectLength, 255))
    );
}

#[test]
fn one_second_is_one_hundred_ticks() {
    let config = ConfigFile {
        default_state: None,
        states: vec![State {
            name: "S".to_string(),
            timeout: Some(Timeout { seconds: 1.0f32.to_bits(), state: "S".to_string() }),
            checks: Vec::new(),
            commands: Vec::new(),
        }],
    };
    let lowered = lower::verify(config).unwrap();
    assert_eq!(lowered.states[0].timeout.unwrap().ticks, 100);
}

#[test]
fn compile_propagates_the_first_error() {
    let mut check = bare_check(Metric::Altitude);
    check.greater_than = Some(10.0f32.to_bits());
    check.transition = Some("Gone".to_string());
    assert_eq!(
        compile(single_state_config(vec![check])),
        Err(Error::StateNotFound("Gone".to_string()))
    );
}
