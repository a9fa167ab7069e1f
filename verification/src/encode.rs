//! The binary encoder: a deterministic, schema-driven serialization of a
//! lowered configuration.
//!
//! The layout is fixed and minimal: a four-byte header (state count,
//! check-pool count, command-pool count, default state index), then each
//! state's index lists and timeout, then the check pool, then the command
//! pool. Counts and indices are single bytes; 32-bit values are little
//! endian; an object identifier is a length byte followed by each
//! character's code point in four bytes. The encoder is total over every
//! well-formed configuration and performs no validation of its own; the
//! byte-level meaning is fixed by the spec functions here, and
//! [`crate::decode`] proves the encoding exactly reversible.
use vstd::prelude::*;

use crate::lowered;
use crate::lowered::{
    CheckData, CheckIndex, CommandIndex, CommandV, ConfigV, FlagCondition, FloatCondition, StateV,
    StateTransition,
};

verus! {

/// A `u32` as four little-endian bytes.
pub open spec fn enc_u32(x: u32) -> Seq<u8> {
    seq![
        (x & 0xff) as u8,
        ((x >> 8) & 0xff) as u8,
        ((x >> 16) & 0xff) as u8,
        ((x >> 24) & 0xff) as u8,
    ]
}

/// A boolean as one byte.
pub open spec fn enc_bool(b: bool) -> u8 {
    if b {
        1u8
    } else {
        0u8
    }
}

/// The characters of an identifier from position `i` on, four bytes each.
pub open spec fn enc_chars_from(s: Seq<char>, i: int) -> Seq<u8>
    decreases s.len() - i,
{
    if i < 0 || i >= s.len() {
        Seq::empty()
    } else {
        enc_u32(s[i] as u32) + enc_chars_from(s, i + 1)
    }
}

/// A check-index list from position `i` on, one byte each.
pub open spec fn enc_chk_idxs_from(idxs: Seq<CheckIndex>, i: int) -> Seq<u8>
    decreases idxs.len() - i,
{
    if i < 0 || i >= idxs.len() {
        Seq::empty()
    } else {
        seq![idxs[i]@ as u8] + enc_chk_idxs_from(idxs, i + 1)
    }
}

/// A command-index list from position `i` on, one byte each.
pub open spec fn enc_cmd_idxs_from(idxs: Seq<CommandIndex>, i: int) -> Seq<u8>
    decreases idxs.len() - i,
{
    if i < 0 || i >= idxs.len() {
        Seq::empty()
    } else {
        seq![idxs[i]@ as u8] + enc_cmd_idxs_from(idxs, i + 1)
    }
}

/// An optional timeout: a tag byte, then ticks and target when present.
pub open spec fn enc_timeout(t: Option<lowered::Timeout>) -> Seq<u8> {
    match t {
        None => seq![0u8],
        Some(t) => seq![1u8] + enc_u32(t.ticks) + seq![t.state@ as u8],
    }
}

/// One state: its check indices, command indices, and timeout.
pub open spec fn enc_state(s: StateV) -> Seq<u8> {
    seq![s.checks.len() as u8] + enc_chk_idxs_from(s.checks, 0) + seq![s.commands.len() as u8]
        + enc_cmd_idxs_from(s.commands, 0) + enc_timeout(s.timeout)
}

/// A check's condition: a shape tag and its payload.
pub open spec fn enc_data(d: CheckData) -> Seq<u8> {
    match d {
        CheckData::Altitude(FloatCondition::GreaterThan(v)) => seq![0u8] + enc_u32(v),
        CheckData::Altitude(FloatCondition::LessThan(v)) => seq![1u8] + enc_u32(v),
        CheckData::Altitude(FloatCondition::Between { upper_bound, lower_bound }) => seq![2u8]
            + enc_u32(upper_bound) + enc_u32(lower_bound),
        CheckData::ApogeeFlag(FlagCondition(b)) => seq![3u8, enc_bool(b)],
        CheckData::Pyro1Continuity(FlagCondition(b)) => seq![4u8, enc_bool(b)],
        CheckData::Pyro2Continuity(FlagCondition(b)) => seq![5u8, enc_bool(b)],
        CheckData::Pyro3Continuity(FlagCondition(b)) => seq![6u8, enc_bool(b)],
    }
}

/// A check's outcome: a tag byte, then the target index when present.
pub open spec fn enc_outcome(t: Option<StateTransition>) -> Seq<u8> {
    match t {
        None => seq![0u8],
        Some(StateTransition::Transition(ix)) => seq![1u8, ix@ as u8],
        Some(StateTransition::Abort(ix)) => seq![2u8, ix@ as u8],
    }
}

/// One check of the pool.
pub open spec fn enc_check(c: lowered::Check) -> Seq<u8> {
    enc_data(c.data) + enc_outcome(c.transition)
}

/// One command of the pool: its identifier, value and delay.
pub open spec fn enc_command(c: CommandV) -> Seq<u8> {
    seq![c.object.len() as u8] + enc_chars_from(c.object, 0) + enc_u32(c.value) + enc_u32(c.delay)
}

/// The states from position `i` on.
pub open spec fn enc_states_from(states: Seq<StateV>, i: int) -> Seq<u8>
    decreases states.len() - i,
{
    if i < 0 || i >= states.len() {
        Seq::empty()
    } else {
        enc_state(states[i]) + enc_states_from(states, i + 1)
    }
}

/// The check pool from position `i` on.
pub open spec fn enc_checks_from(checks: Seq<lowered::Check>, i: int) -> Seq<u8>
    decreases checks.len() - i,
{
    if i < 0 || i >= checks.len() {
        Seq::empty()
    } else {
        enc_check(checks[i]) + enc_checks_from(checks, i + 1)
    }
}

/// The command pool from position `i` on.
pub open spec fn enc_commands_from(commands: Seq<CommandV>, i: int) -> Seq<u8>
    decreases commands.len() - i,
{
    if i < 0 || i >= commands.len() {
        Seq::empty()
    } else {
        enc_command(commands[i]) + enc_commands_from(commands, i + 1)
    }
}

/// The whole encoding of a lowered configuration.
pub open spec fn enc(v: ConfigV) -> Seq<u8> {
    seq![
        v.states.len() as u8,
        v.checks.len() as u8,
        v.commands.len() as u8,
        v.default_state@ as u8,
    ] + enc_states_from(v.states, 0) + enc_checks_from(v.checks, 0) + enc_commands_from(
        v.commands,
        0,
    )
}

/// Appends a `u32` as four little-endian bytes.
fn push_u32(out: &mut Vec<u8>, x: u32)
    ensures
        final(out)@ == old(out)@ + enc_u32(x),
{
    out.push((x & 0xff) as u8);
    out.push(((x >> 8) & 0xff) as u8);
    out.push(((x >> 16) & 0xff) as u8);
    out.push(((x >> 24) & 0xff) as u8);
    proof {
        assert(out@ =~= old(out)@ + enc_u32(x));
    }
}

/// Appends one state's encoding.
#[verifier::loop_isolation(false)]
fn encode_state(out: &mut Vec<u8>, s: &lowered::State)
    requires
        s@.checks.len() <= 255,
        s@.commands.len() <= 255,
        forall|q: int| 0 <= q < s@.checks.len() ==> 0 <= (#[trigger] s@.checks[q])@ < 256,
        forall|q: int| 0 <= q < s@.commands.len() ==> 0 <= (#[trigger] s@.commands[q])@ < 256,
        s@.timeout matches Some(t) ==> 0 <= t.state@ < 256,
    ensures
        final(out)@ == old(out)@ + enc_state(s@),
{
    out.push(s.checks.len() as u8);
    let mut q: usize = 0;
    while q < s.checks.len()
        invariant
            q <= s@.checks.len(),
            out@ + enc_chk_idxs_from(s@.checks, q as int) == old(out)@ + seq![
                s@.checks.len() as u8,
            ] + enc_chk_idxs_from(s@.checks, 0),
        decreases s@.checks.len() - q,
    {
        let ix = s.checks[q];
        out.push(ix.get());
        q = q + 1;
        proof {
            assert(out@ + enc_chk_idxs_from(s@.checks, q as int) =~= old(out)@ + seq![
                s@.checks.len() as u8,
            ] + enc_chk_idxs_from(s@.checks, 0));
        }
    }
    out.push(s.commands.len() as u8);
    let ghost mid = out@;
    let mut q2: usize = 0;
    while q2 < s.commands.len()
        invariant
            q2 <= s@.commands.len(),
            out@ + enc_cmd_idxs_from(s@.commands, q2 as int) == mid + enc_cmd_idxs_from(
                s@.commands,
                0,
            ),
        decreases s@.commands.len() - q2,
    {
        let ix = s.commands[q2];
        out.push(ix.get());
        q2 = q2 + 1;
        proof {
            assert(out@ + enc_cmd_idxs_from(s@.commands, q2 as int) =~= mid + enc_cmd_idxs_from(
                s@.commands,
                0,
            ));
        }
    }
    match &s.timeout {
        None => {
            out.push(0);
        },
        Some(t) => {
            out.push(1);
            push_u32(out, t.ticks);
            out.push(t.state.get());
        },
    }
    proof {
        assert(out@ =~= old(out)@ + enc_state(s@));
    }
}

/// Appends one check's encoding.
fn encode_check(out: &mut Vec<u8>, c: &lowered::Check)
    requires
        c.transition matches Some(t) ==> (match t {
            StateTransition::Transition(ix) => 0 <= ix@ < 256,
            StateTransition::Abort(ix) => 0 <= ix@ < 256,
        }),
    ensures
        final(out)@ == old(out)@ + enc_check(*c),
{
    match &c.data {
        CheckData::Altitude(FloatCondition::GreaterThan(v)) => {
            out.push(0);
            push_u32(out, *v);
        },
        CheckData::Altitude(FloatCondition::LessThan(v)) => {
            out.push(1);
            push_u32(out, *v);
        },
        CheckData::Altitude(FloatCondition::Between { upper_bound, lower_bound }) => {
            out.push(2);
            push_u32(out, *upper_bound);
            push_u32(out, *lower_bound);
        },
        CheckData::ApogeeFlag(FlagCondition(b)) => {
            out.push(3);
            out.push(if *b {
                1
            } else {
                0
            });
        },
        CheckData::Pyro1Continuity(FlagCondition(b)) => {
            out.push(4);
            out.push(if *b {
                1
            } else {
                0
            });
        },
        CheckData::Pyro2Continuity(FlagCondition(b)) => {
            out.push(5);
            out.push(if *b {
                1
            } else {
                0
            });
        },
        CheckData::Pyro3Continuity(FlagCondition(b)) => {
            out.push(6);
            out.push(if *b {
                1
            } else {
                0
            });
        },
    }
    match &c.transition {
        None => {
            out.push(0);
        },
        Some(StateTransition::Transition(ix)) => {
            out.push(1);
            out.push(ix.get());
        },
        Some(StateTransition::Abort(ix)) => {
            out.push(2);
            out.push(ix.get());
        },
    }
    proof {
        assert(out@ =~= old(out)@ + enc_check(*c));
    }
}

/// Appends one command's encoding.
#[verifier::loop_isolation(false)]
fn encode_command(out: &mut Vec<u8>, c: &lowered::Command)
    requires
        c@.object.len() <= 255,
    ensures
        final(out)@ == old(out)@ + enc_command(c@),
{
    let s = c.object.as_str();
    let n = s.unicode_len();
    out.push(n as u8);
    let ghost mid = out@;
    let mut q: usize = 0;
    while q < n
        invariant
            q <= c@.object.len(),
            n == c@.object.len(),
            s@ == c@.object,
            out@ + enc_chars_from(c@.object, q as int) == mid + enc_chars_from(c@.object, 0),
        decreases n - q,
    {
        let ch = s.get_char(q);
        push_u32(out, ch as u32);
        q = q + 1;
        proof {
            assert(out@ + enc_chars_from(c@.object, q as int) =~= mid + enc_chars_from(
                c@.object,
                0,
            ));
        }
    }
    push_u32(out, c.value);
    push_u32(out, c.delay);
    proof {
        assert(out@ =~= old(out)@ + enc_command(c@));
    }
}

/// Serializes a well-formed lowered configuration. Deterministic and
/// total: the result is exactly [`enc`] of the configuration's view.
#[verifier::loop_isolation(false)]
#[verifier::rlimit(30)]
pub fn encode(config: &lowered::ConfigFile) -> (r: Vec<u8>)
    requires
        config@.wf(),
    ensures
        r@ == enc(config@),
{
    let ghost v = config@;
    let mut out: Vec<u8> = Vec::new();
    out.push(config.states.len() as u8);
    out.push(config.checks.len() as u8);
    out.push(config.commands.len() as u8);
    out.push(config.default_state.get());
    let ghost header = out@;
    proof {
        assert(header =~= seq![
            v.states.len() as u8,
            v.checks.len() as u8,
            v.commands.len() as u8,
            v.default_state@ as u8,
        ]);
    }
    let mut i: usize = 0;
    while i < config.states.len()
        invariant
            i <= v.states.len(),
            out@ + enc_states_from(v.states, i as int) == header + enc_states_from(v.states, 0),
        decreases v.states.len() - i,
    {
        proof {
            assert(v.states[i as int] == config.states@[i as int]@);
            assert(v.states[i as int].wf_in(
                v.states.len() as int,
                v.checks.len() as int,
                v.commands.len() as int,
            ));
        }
        encode_state(&mut out, &config.states[i]);
        i = i + 1;
        proof {
            assert(out@ + enc_states_from(v.states, i as int) =~= header + enc_states_from(
                v.states,
                0,
            ));
        }
    }
    let ghost after_states = out@;
    let mut i2: usize = 0;
    while i2 < config.checks.len()
        invariant
            i2 <= v.checks.len(),
            out@ + enc_checks_from(v.checks, i2 as int) == after_states + enc_checks_from(
                v.checks,
                0,
            ),
        decreases v.checks.len() - i2,
    {
        proof {
            assert(v.checks[i2 as int] == config.checks@[i2 as int]);
            assert(v.checks[i2 as int].wf_in(v.states.len() as int));
        }
        encode_check(&mut out, &config.checks[i2]);
        i2 = i2 + 1;
        proof {
            assert(out@ + enc_checks_from(v.checks, i2 as int) =~= after_states + enc_checks_from(
                v.checks,
                0,
            ));
        }
    }
    let ghost after_checks = out@;
    let mut i3: usize = 0;
    while i3 < config.commands.len()
        invariant
            i3 <= v.commands.len(),
            out@ + enc_commands_from(v.commands, i3 as int) == after_checks + enc_commands_from(
                v.commands,
                0,
            ),
        decreases v.commands.len() - i3,
    {
        proof {
            assert(v.commands[i3 as int] == config.commands@[i3 as int]@);
            assert(v.commands[i3 as int].wf());
        }
        encode_command(&mut out, &config.commands[i3]);
        i3 = i3 + 1;
        proof {
            assert(out@ + enc_commands_from(v.commands, i3 as int) =~= after_checks
                + enc_commands_from(v.commands, 0));
        }
    }
    proof {
        assert(out@ =~= enc(v));
    }
    out
}

} // verus!
