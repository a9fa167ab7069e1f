use nova_verifier::decode::decode;
use nova_verifier::encode::encode;
use nova_verifier::lower;
use nova_verifier::lowered::{
    Check, CheckData, CheckIndex, CommandIndex, ConfigFile, FlagCondition, FloatCondition, State,
    StateIndex, StateTransition, Timeout,
};
use nova_verifier::upper;

fn rich_config() -> ConfigFile {
    let checks = vec![
        Check {
            data: CheckData::Altitude(FloatCondition::GreaterThan(100.0f32.to_bits())),
            transition: Some(StateTransition::Transition(StateIndex::new(1, 2).unwrap())),
        },
        Check {
            data: CheckData::Altitude(FloatCondition::Between {
                upper_bound: 2000.0f32.to_bits(),
                lower_bound: 100.0f32.to_bits(),
            }),
            transition: None,
        },
        Check {
            data: CheckData::Pyro3Continuity(FlagCondition(false)),
            transition: Some(StateTransition::Abort(StateIndex::new(0, 2).unwrap())),
        },
        Check {
            data: CheckData::Altitude(FloatCondition::LessThan(5.5f32.to_bits())),
            transition: None,
        },
    ];
    let commands = vec![nova_verifier::lowered::Command {
        object: "pyro1-firing-voltage-µ🚀".to_string(),
        value: 12.5f32.to_bits(),
        delay: 0.25f32.to_bits(),
    }];
    let states = vec![
        State {
            checks: vec![CheckIndex::new(0, 4).unwrap(), CheckIndex::new(1, 4).unwrap()],
            commands: vec![CommandIndex::new(0, 1).unwrap()],
            timeout: Some(Timeout { ticks: 12345, state: StateIndex::new(1, 2).unwrap() }),
        },
        State {
            checks: vec![CheckIndex::new(2, 4).unwrap(), CheckIndex::new(3, 4).unwrap()],
            commands: Vec::new(),
            timeout: None,
        },
    ];
    ConfigFile {
        default_state: StateIndex::new(1, 2).unwrap(),
        states,
        checks,
        commands,
    }
}

#[test]
fn round_trip_preserves_a_rich_config() {
    let config = rich_config();
    let bytes = encode(&config);
    let decoded = decode(&bytes).expect("a fresh encoding must decode");
    assert_eq!(decoded, config);
}

#[test]
fn round_trip_through_the_whole_pipeline() {
    let config = upper::ConfigFile {
        default_state: Some("Armed".to_string()),
        states: vec![
            upper::State {
                name: "Armed".to_string(),
                timeout: Some(upper::Timeout {
                    seconds: 3.5f32.to_bits(),
                    state: "Flight".to_string(),
                }),
                checks: vec![upper::Check {
                    name: "launch".to_string(),
                    check: upper::Metric::Altitude,
                    transition: Some("Flight".to_string()),
                    abort: None,
                    greater_than: Some(30.0f32.to_bits()),
                    upper_bound: None,
                    lower_bound: None,
                    flag: None,
                }],
                commands: vec![upper::Command {
                    object: "beeper".to_string(),
                    value: 1.0f32.to_bits(),
                    delay: 0.0f32.to_bits(),
                }],
            },
            upper::State {
                name: "Flight".to_string(),
                timeout: None,
                checks: Vec::new(),
                commands: Vec::new(),
            },
        ],
    };
    let lowered = lower::verify(config).unwrap();
    let bytes = encode(&lowered);
    let decoded = decode(&bytes).unwrap();
    assert_eq!(decoded, lowered);
    assert_eq!(decoded.states[0].timeout.unwrap().ticks, 350);
    assert_eq!(decoded.commands[0].object, "beeper");
}

#[test]
fn round_trip_at_state_capacity() {
    let mut states = Vec::new();
    for _ in 0..255 {
        states.push(State { checks: Vec::new(), commands: Vec::new(), timeout: None });
    }
    let config = ConfigFile {
        default_state: StateIndex::new(254, 255).unwrap(),
        states,
        checks: Vec::new(),
        commands: Vec::new(),
    };
    let bytes = encode(&config);
    let decoded = decode(&bytes).unwrap();
    assert_eq!(decoded, config);
}

#[test]
fn index_factory_rejects_out_of_range_values() {
    assert!(StateIndex::new(2, 2).is_none());
    assert!(StateIndex::new(1, 2).is_some());
    assert!(CheckIndex::new(0, 0).is_none());
    assert!(CommandIndex::new(255, 255).is_none());
}

#[test]
fn decode_rejects_empty_input() {
    assert!(decode(&Vec::new()).is_none());
}

#[test]
fn decode_rejects_zero_states() {
    let bytes = vec![0u8, 0, 0, 0];
    assert!(decode(&bytes).is_none());
}

#[test]
fn decode_rejects_default_state_out_of_range() {
    // one empty state, but the default index points past it
    let bytes = vec![1u8, 0, 0, 1, 0, 0, 0];
    assert!(decode(&bytes).is_none());
}

#[test]
fn decode_rejects_truncated_input() {
    let config = rich_config();
    let mut bytes = encode(&config);
    bytes.pop();
    assert!(decode(&bytes).is_none());
}

#[test]
fn decode_rejects_trailing_bytes() {
    let config = rich_config();
    let mut bytes = encode(&config);
    bytes.push(0);
    assert!(decode(&bytes).is_none());
}

#[test]
fn decode_accepts_a_minimal_config() {
    // one state with no checks, commands or timeout; default index 0
    let bytes = vec![1u8, 0, 0, 0, 0, 0, 0];
    let decoded = decode(&bytes).unwrap();
    assert_eq!(decoded.states.len(), 1);
    assert_eq!(decoded.default_state.get(), 0);
    assert!(decoded.checks.is_empty());
    assert!(decoded.commands.is_empty());
}

#[test]
fn decode_reads_object_characters_from_code_points() {
    // one state, no checks, one command whose object is the single letter 'A'
    let bytes = vec![
        1u8, 0, 1, 0, // header
        0, 0, 0, // the state: no checks, no commands, no timeout
        1, 0x41, 0, 0, 0, // object: one char, code point 0x41
        0, 0, 0, 0, // value
        0, 0, 0, 0, // delay
    ];
    let decoded = decode(&bytes).unwrap();
    assert_eq!(decoded.commands[0].object, "A");
}

#[test]
fn decode_rejects_surrogate_code_points() {
    // as above, but the object's code point is the surrogate 0xD800
    let bytes = vec![
        1u8, 0, 1, 0, // header
        0, 0, 0, // the state
        1, 0x00, 0xD8, 0, 0, // object: one char, code point 0xD800
        0, 0, 0, 0, // value
        0, 0, 0, 0, // delay
    ];
    assert!(decode(&bytes).is_none());
}

#[test]
fn decode_rejects_check_index_out_of_pool() {
    // one state declaring one check index, but an empty check pool
    let bytes = vec![1u8, 0, 0, 0, 1, 0, 0, 0];
    assert!(decode(&bytes).is_none());
}

#[test]
fn decode_rejects_unknown_condition_tag() {
    // header for one state and one check; the check's shape tag is 7
    let bytes = vec![1u8, 1, 0, 0, 0, 0, 0, 7, 0, 0, 0, 0, 0];
    assert!(decode(&bytes).is_none());
}

#[test]
fn encoding_is_deterministic() {
    let b1 = encode(&rich_config());
    let b2 = encode(&rich_config());
    assert_eq!(b1, b2);
}

#[test]
fn minimal_config_has_the_documented_layout() {
    let config = ConfigFile {
        default_state: StateIndex::new(0, 1).unwrap(),
        states: vec![State { checks: Vec::new(), commands: Vec::new(), timeout: None }],
        checks: Vec::new(),
        commands: Vec::new(),
    };
    // header: one state, empty pools, default index 0;
    // the state: no checks, no commands, no timeout
    assert_eq!(encode(&config), vec![1u8, 0, 0, 0, 0, 0, 0]);
}
