//! The binary decoder, and the proof that the encoding round-trips.
//!
//! The spec functions here read the byte layout of [`crate::encode`] back
//! into a lowered configuration, cursor-style: each reads at a position
//! and yields the decoded value with the next position, or nothing when
//! the bytes do not fit the schema. [`lemma_round_trip`] proves that
//! decoding an encoding returns exactly the encoded configuration, for
//! every well-formed configuration; [`decode`] is the executable decoder,
//! exact with respect to the spec. Index values are rebuilt only through
//! the checked factories, so a decoded configuration's indices point into
//! their pools.
use vstd::prelude::*;
use vstd::utf8::{char_is_scalar, char_u32_cast, is_scalar};

use crate::encode::{
    enc, enc_bool, enc_check, enc_checks_from, enc_chars_from, enc_chk_idxs_from,
    enc_cmd_idxs_from, enc_command, enc_commands_from, enc_data, enc_outcome, enc_state,
    enc_states_from, enc_timeout, enc_u32,
};
use crate::lowered;
use crate::lowered::{
    CheckData, CheckIndex, CommandIndex, CommandV, ConfigV, FlagCondition, FloatCondition,
    StateIndex, StateTransition, StateV, MAX_CHECKS_PER_STATE, MAX_COMMANDS_PER_STATE,
};

verus! {

/// One byte at the cursor.
pub open spec fn dec_u8(b: Seq<u8>, p: int) -> Option<(u8, int)> {
    if 0 <= p < b.len() {
        Some((b[p], p + 1))
    } else {
        None
    }
}

/// A `u32` from four little-endian bytes at the cursor.
pub open spec fn dec_u32(b: Seq<u8>, p: int) -> Option<(u32, int)> {
    if 0 <= p && p + 4 <= b.len() {
        Some(
            (
                (b[p] as u32) | ((b[p + 1] as u32) << 8) | ((b[p + 2] as u32) << 16) | ((b[p + 3]
                    as u32) << 24),
                p + 4,
            ),
        )
    } else {
        None
    }
}

/// `n` characters, four bytes each; fails on a non-scalar code point.
pub open spec fn dec_chars(b: Seq<u8>, p: int, n: int, acc: Seq<char>) -> Option<(Seq<char>, int)>
    decreases n,
{
    if n <= 0 {
        Some((acc, p))
    } else {
        match dec_u32(b, p) {
            None => None,
            Some((w, p1)) => if !is_scalar(w) {
                None
            } else {
                dec_chars(b, p1, n - 1, acc.push(w as char))
            },
        }
    }
}

/// `n` check indices, one byte each, each under `bound`.
pub open spec fn dec_chk_idxs(b: Seq<u8>, p: int, n: int, bound: int, acc: Seq<CheckIndex>) -> Option<
    (Seq<CheckIndex>, int),
>
    decreases n,
{
    if n <= 0 {
        Some((acc, p))
    } else {
        match dec_u8(b, p) {
            None => None,
            Some((x, p1)) => if x as int >= bound {
                None
            } else {
                dec_chk_idxs(b, p1, n - 1, bound, acc.push(CheckIndex::from_int(x as int)))
            },
        }
    }
}

/// `n` command indices, one byte each, each under `bound`.
pub open spec fn dec_cmd_idxs(b: Seq<u8>, p: int, n: int, bound: int, acc: Seq<CommandIndex>) -> Option<
    (Seq<CommandIndex>, int),
>
    decreases n,
{
    if n <= 0 {
        Some((acc, p))
    } else {
        match dec_u8(b, p) {
            None => None,
            Some((x, p1)) => if x as int >= bound {
                None
            } else {
                dec_cmd_idxs(b, p1, n - 1, bound, acc.push(CommandIndex::from_int(x as int)))
            },
        }
    }
}

/// An optional timeout; its target must index a state under `ns`.
pub open spec fn dec_timeout(b: Seq<u8>, p: int, ns: int) -> Option<
    (Option<lowered::Timeout>, int),
> {
    match dec_u8(b, p) {
        None => None,
        Some((tag, p1)) => if tag == 0 {
            Some((None, p1))
        } else if tag == 1 {
            match dec_u32(b, p1) {
                None => None,
                Some((ticks, p2)) => match dec_u8(b, p2) {
                    None => None,
                    Some((st, p3)) => if st as int >= ns {
                        None
                    } else {
                        Some(
                            (
                                Some(
                                    lowered::Timeout {
                                        ticks,
                                        state: StateIndex::from_int(st as int),
                                    },
                                ),
                                p3,
                            ),
                        )
                    },
                },
            }
        } else {
            None
        },
    }
}

/// One state: its check indices (under `nc`), command indices (under
/// `nm`), and timeout (targets under `ns`).
pub open spec fn dec_state(b: Seq<u8>, p: int, ns: int, nc: int, nm: int) -> Option<(StateV, int)> {
    match dec_u8(b, p) {
        None => None,
        Some((nchk, p1)) => if nchk as int > MAX_CHECKS_PER_STATE {
            None
        } else {
            match dec_chk_idxs(b, p1, nchk as int, nc, Seq::empty()) {
                None => None,
                Some((chk_idxs, p2)) => match dec_u8(b, p2) {
                    None => None,
                    Some((ncmd, p3)) => if ncmd as int > MAX_COMMANDS_PER_STATE {
                        None
                    } else {
                        match dec_cmd_idxs(b, p3, ncmd as int, nm, Seq::empty()) {
                            None => None,
                            Some((cmd_idxs, p4)) => match dec_timeout(b, p4, ns) {
                                None => None,
                                Some((timeout, p5)) => Some(
                                    (StateV { checks: chk_idxs, commands: cmd_idxs, timeout }, p5),
                                ),
                            },
                        }
                    },
                },
            }
        },
    }
}

/// `n` states in sequence.
pub open spec fn dec_states(
    b: Seq<u8>,
    p: int,
    n: int,
    ns: int,
    nc: int,
    nm: int,
    acc: Seq<StateV>,
) -> Option<(Seq<StateV>, int)>
    decreases n,
{
    if n <= 0 {
        Some((acc, p))
    } else {
        match dec_state(b, p, ns, nc, nm) {
            None => None,
            Some((s, p1)) => dec_states(b, p1, n - 1, ns, nc, nm, acc.push(s)),
        }
    }
}

/// A check's condition from its shape tag.
pub open spec fn dec_data(b: Seq<u8>, p: int) -> Option<(CheckData, int)> {
    match dec_u8(b, p) {
        None => None,
        Some((tag, p1)) => if tag == 0 {
            match dec_u32(b, p1) {
                None => None,
                Some((v, p2)) => Some((CheckData::Altitude(FloatCondition::GreaterThan(v)), p2)),
            }
        } else if tag == 1 {
            match dec_u32(b, p1) {
                None => None,
                Some((v, p2)) => Some((CheckData::Altitude(FloatCondition::LessThan(v)), p2)),
            }
        } else if tag == 2 {
            match dec_u32(b, p1) {
                None => None,
                Some((u, p2)) => match dec_u32(b, p2) {
                    None => None,
                    Some((l, p3)) => Some(
                        (
                            CheckData::Altitude(
                                FloatCondition::Between { upper_bound: u, lower_bound: l },
                            ),
                            p3,
                        ),
                    ),
                },
            }
        } else if tag == 3 || tag == 4 || tag == 5 || tag == 6 {
            match dec_u8(b, p1) {
                None => None,
                Some((fb, p2)) => if fb as int > 1 {
                    None
                } else {
                    let cond = FlagCondition(fb == 1);
                    Some(
                        (
                            if tag == 3 {
                                CheckData::ApogeeFlag(cond)
                            } else if tag == 4 {
                                CheckData::Pyro1Continuity(cond)
                            } else if tag == 5 {
                                CheckData::Pyro2Continuity(cond)
                            } else {
                                CheckData::Pyro3Continuity(cond)
                            },
                            p2,
                        ),
                    )
                },
            }
        } else {
            None
        },
    }
}

/// A check's outcome from its tag; a target must index a state under `ns`.
pub open spec fn dec_outcome(b: Seq<u8>, p: int, ns: int) -> Option<
    (Option<StateTransition>, int),
> {
    match dec_u8(b, p) {
        None => None,
        Some((tag, p1)) => if tag == 0 {
            Some((None, p1))
        } else if tag == 1 || tag == 2 {
            match dec_u8(b, p1) {
                None => None,
                Some((x, p2)) => if x as int >= ns {
                    None
                } else {
                    let ix = StateIndex::from_int(x as int);
                    Some(
                        (
                            Some(
                                if tag == 1 {
                                    StateTransition::Transition(ix)
                                } else {
                                    StateTransition::Abort(ix)
                                },
                            ),
                            p2,
                        ),
                    )
                },
            }
        } else {
            None
        },
    }
}

/// One check of the pool.
pub open spec fn dec_check(b: Seq<u8>, p: int, ns: int) -> Option<(lowered::Check, int)> {
    match dec_data(b, p) {
        None => None,
        Some((data, p1)) => match dec_outcome(b, p1, ns) {
            None => None,
            Some((transition, p2)) => Some((lowered::Check { data, transition }, p2)),
        },
    }
}

/// `n` checks in sequence.
pub open spec fn dec_checks(b: Seq<u8>, p: int, n: int, ns: int, acc: Seq<lowered::Check>) -> Option<
    (Seq<lowered::Check>, int),
>
    decreases n,
{
    if n <= 0 {
        Some((acc, p))
    } else {
        match dec_check(b, p, ns) {
            None => None,
            Some((c, p1)) => dec_checks(b, p1, n - 1, ns, acc.push(c)),
        }
    }
}

/// One command of the pool.
pub open spec fn dec_command(b: Seq<u8>, p: int) -> Option<(CommandV, int)> {
    match dec_u8(b, p) {
        None => None,
        Some((len, p1)) => match dec_chars(b, p1, len as int, Seq::empty()) {
            None => None,
            Some((object, p2)) => match dec_u32(b, p2) {
                None => None,
                Some((value, p3)) => match dec_u32(b, p3) {
                    None => None,
                    Some((delay, p4)) => Some((CommandV { object, value, delay }, p4)),
                },
            },
        },
    }
}

/// `n` commands in sequence.
pub open spec fn dec_commands(b: Seq<u8>, p: int, n: int, acc: Seq<CommandV>) -> Option<
    (Seq<CommandV>, int),
>
    decreases n,
{
    if n <= 0 {
        Some((acc, p))
    } else {
        match dec_command(b, p) {
            None => None,
            Some((c, p1)) => dec_commands(b, p1, n - 1, acc.push(c)),
        }
    }
}

/// The whole decoding: header, states, check pool, command pool, with
/// nothing left over.
pub open spec fn dec(b: Seq<u8>) -> Option<ConfigV> {
    match dec_u8(b, 0) {
        None => None,
        Some((ns, p1)) => if ns == 0 {
            None
        } else {
            match dec_u8(b, p1) {
                None => None,
                Some((nc, p2)) => match dec_u8(b, p2) {
                    None => None,
                    Some((nm, p3)) => match dec_u8(b, p3) {
                        None => None,
                        Some((ds, p4)) => if ds as int >= ns as int {
                            None
                        } else {
                            match dec_states(
                                b,
                                p4,
                                ns as int,
                                ns as int,
                                nc as int,
                                nm as int,
                                Seq::empty(),
                            ) {
                                None => None,
                                Some((states, p5)) => match dec_checks(
                                    b,
                                    p5,
                                    nc as int,
                                    ns as int,
                                    Seq::empty(),
                                ) {
                                    None => None,
                                    Some((checks, p6)) => match dec_commands(
                                        b,
                                        p6,
                                        nm as int,
                                        Seq::empty(),
                                    ) {
                                        None => None,
                                        Some((commands, p7)) => if p7 == b.len() {
                                            Some(
                                                ConfigV {
                                                    default_state: StateIndex::from_int(ds as int),
                                                    states,
                                                    checks,
                                                    commands,
                                                },
                                            )
                                        } else {
                                            None
                                        },
                                    },
                                },
                            }
                        },
                    },
                },
            }
        },
    }
}

/// The bytes `s` stand in `b` at position `p`.
pub open spec fn bytes_at(b: Seq<u8>, p: int, s: Seq<u8>) -> bool {
    &&& 0 <= p
    &&& p + s.len() <= b.len()
    &&& forall|i: int| 0 <= i < s.len() ==> b[p + i] == s[i]
}

/// Bytes standing at a position split over a concatenation.
pub proof fn lemma_bytes_at_split(b: Seq<u8>, p: int, s1: Seq<u8>, s2: Seq<u8>)
    requires
        bytes_at(b, p, s1 + s2),
    ensures
        bytes_at(b, p, s1),
        bytes_at(b, p + s1.len(), s2),
{
    assert forall|i: int| 0 <= i < s1.len() implies b[p + i] == s1[i] by {
        assert((s1 + s2)[i] == s1[i]);
    }
    assert forall|i: int| 0 <= i < s2.len() implies b[p + s1.len() + i] == s2[i] by {
        assert((s1 + s2)[s1.len() + i] == s2[i]);
    }
}

/// A byte encoded at a position decodes to itself.
pub proof fn lemma_dec_u8_at(b: Seq<u8>, p: int, x: u8)
    requires
        bytes_at(b, p, seq![x]),
    ensures
        dec_u8(b, p) == Some((x, p + 1)),
{
    assert(b[p] == seq![x][0]);
}

/// A `u32` encoded at a position decodes to itself.
pub proof fn lemma_dec_u32_at(b: Seq<u8>, p: int, x: u32)
    requires
        bytes_at(b, p, enc_u32(x)),
    ensures
        dec_u32(b, p) == Some((x, p + 4)),
{
    assert(b[p] == enc_u32(x)[0]);
    assert(b[p + 1] == enc_u32(x)[1]);
    assert(b[p + 2] == enc_u32(x)[2]);
    assert(b[p + 3] == enc_u32(x)[3]);
    assert((((x & 0xff) as u8) as u32) | ((((x >> 8) & 0xff) as u8) as u32) << 8 | ((((x >> 16)
        & 0xff) as u8) as u32) << 16 | ((((x >> 24) & 0xff) as u8) as u32) << 24 == x)
        by (bit_vector);
}

/// Characters encoded from position `i` decode to the remaining suffix.
pub proof fn lemma_dec_chars_at(b: Seq<u8>, p: int, s: Seq<char>, i: int, acc: Seq<char>)
    requires
        0 <= i <= s.len(),
        bytes_at(b, p, enc_chars_from(s, i)),
    ensures
        dec_chars(b, p, s.len() - i, acc) == Some(
            (acc + s.skip(i), p + enc_chars_from(s, i).len()),
        ),
    decreases s.len() - i,
{
    if i == s.len() {
        assert(acc + s.skip(i) =~= acc);
    } else {
        lemma_bytes_at_split(b, p, enc_u32(s[i] as u32), enc_chars_from(s, i + 1));
        lemma_dec_u32_at(b, p, s[i] as u32);
        char_is_scalar(s[i]);
        char_u32_cast(s[i], s[i] as u32);
        lemma_dec_chars_at(b, p + 4, s, i + 1, acc.push(s[i]));
        assert(acc.push(s[i]) + s.skip(i + 1) =~= acc + s.skip(i));
    }
}

/// Check indices encoded from position `i` decode to the remaining suffix.
pub proof fn lemma_dec_chk_idxs_at(
    b: Seq<u8>,
    p: int,
    idxs: Seq<CheckIndex>,
    i: int,
    bound: int,
    acc: Seq<CheckIndex>,
)
    requires
        0 <= i <= idxs.len(),
        forall|q: int| 0 <= q < idxs.len() ==> 0 <= (#[trigger] idxs[q])@ < bound,
        bound <= 256,
        bytes_at(b, p, enc_chk_idxs_from(idxs, i)),
    ensures
        dec_chk_idxs(b, p, idxs.len() - i, bound, acc) == Some(
            (acc + idxs.skip(i), p + enc_chk_idxs_from(idxs, i).len()),
        ),
    decreases idxs.len() - i,
{
    if i == idxs.len() {
        assert(acc + idxs.skip(i) =~= acc);
    } else {
        lemma_bytes_at_split(b, p, seq![idxs[i]@ as u8], enc_chk_idxs_from(idxs, i + 1));
        lemma_dec_u8_at(b, p, idxs[i]@ as u8);
        CheckIndex::lemma_from_int_inverse(idxs[i]);
        lemma_dec_chk_idxs_at(b, p + 1, idxs, i + 1, bound, acc.push(idxs[i]));
        assert(acc.push(idxs[i]) + idxs.skip(i + 1) =~= acc + idxs.skip(i));
    }
}

/// Command indices encoded from position `i` decode to the remaining suffix.
pub proof fn lemma_dec_cmd_idxs_at(
    b: Seq<u8>,
    p: int,
    idxs: Seq<CommandIndex>,
    i: int,
    bound: int,
    acc: Seq<CommandIndex>,
)
    requires
        0 <= i <= idxs.len(),
        forall|q: int| 0 <= q < idxs.len() ==> 0 <= (#[trigger] idxs[q])@ < bound,
        bound <= 256,
        bytes_at(b, p, enc_cmd_idxs_from(idxs, i)),
    ensures
        dec_cmd_idxs(b, p, idxs.len() - i, bound, acc) == Some(
            (acc + idxs.skip(i), p + enc_cmd_idxs_from(idxs, i).len()),
        ),
    decreases idxs.len() - i,
{
    if i == idxs.len() {
        assert(acc + idxs.skip(i) =~= acc);
    } else {
        lemma_bytes_at_split(b, p, seq![idxs[i]@ as u8], enc_cmd_idxs_from(idxs, i + 1));
        lemma_dec_u8_at(b, p, idxs[i]@ as u8);
        CommandIndex::lemma_from_int_inverse(idxs[i]);
        lemma_dec_cmd_idxs_at(b, p + 1, idxs, i + 1, bound, acc.push(idxs[i]));
        assert(acc.push(idxs[i]) + idxs.skip(i + 1) =~= acc + idxs.skip(i));
    }
}

/// An encoded timeout decodes to itself.
pub proof fn lemma_dec_timeout_at(b: Seq<u8>, p: int, t: Option<lowered::Timeout>, ns: int)
    requires
        t matches Some(tv) ==> 0 <= tv.state@ < ns,
        ns <= 256,
        bytes_at(b, p, enc_timeout(t)),
    ensures
        dec_timeout(b, p, ns) == Some((t, p + enc_timeout(t).len())),
{
    match t {
        None => {
            lemma_dec_u8_at(b, p, 0);
        },
        Some(tv) => {
            assert(enc_timeout(t) =~= seq![1u8] + (enc_u32(tv.ticks) + seq![tv.state@ as u8]));
            lemma_bytes_at_split(b, p, seq![1u8], enc_u32(tv.ticks) + seq![tv.state@ as u8]);
            lemma_bytes_at_split(b, p + 1, enc_u32(tv.ticks), seq![tv.state@ as u8]);
            lemma_dec_u8_at(b, p, 1);
            lemma_dec_u32_at(b, p + 1, tv.ticks);
            lemma_dec_u8_at(b, p + 5, tv.state@ as u8);
            StateIndex::lemma_from_int_inverse(tv.state);
        },
    }
}

/// An encoded state decodes to itself.
pub proof fn lemma_dec_state_at(b: Seq<u8>, p: int, s: StateV, ns: int, nc: int, nm: int)
    requires
        s.wf_in(ns, nc, nm),
        0 < ns <= 255,
        0 <= nc <= 255,
        0 <= nm <= 255,
        bytes_at(b, p, enc_state(s)),
    ensures
        dec_state(b, p, ns, nc, nm) == Some((s, p + enc_state(s).len())),
{
    let rest1 = enc_chk_idxs_from(s.checks, 0) + seq![s.commands.len() as u8]
        + enc_cmd_idxs_from(s.commands, 0) + enc_timeout(s.timeout);
    assert(enc_state(s) =~= seq![s.checks.len() as u8] + rest1);
    lemma_bytes_at_split(b, p, seq![s.checks.len() as u8], rest1);
    lemma_dec_u8_at(b, p, s.checks.len() as u8);
    let p1 = p + 1;
    let rest2 = seq![s.commands.len() as u8] + enc_cmd_idxs_from(s.commands, 0) + enc_timeout(
        s.timeout,
    );
    assert(rest1 =~= enc_chk_idxs_from(s.checks, 0) + rest2);
    lemma_bytes_at_split(b, p1, enc_chk_idxs_from(s.checks, 0), rest2);
    lemma_dec_chk_idxs_at(b, p1, s.checks, 0, nc, Seq::empty());
    assert(Seq::<CheckIndex>::empty() + s.checks.skip(0) =~= s.checks);
    let p2 = p1 + enc_chk_idxs_from(s.checks, 0).len();
    let rest3 = enc_cmd_idxs_from(s.commands, 0) + enc_timeout(s.timeout);
    assert(rest2 =~= seq![s.commands.len() as u8] + rest3);
    lemma_bytes_at_split(b, p2, seq![s.commands.len() as u8], rest3);
    lemma_dec_u8_at(b, p2, s.commands.len() as u8);
    let p3 = p2 + 1;
    lemma_bytes_at_split(b, p3, enc_cmd_idxs_from(s.commands, 0), enc_timeout(s.timeout));
    lemma_dec_cmd_idxs_at(b, p3, s.commands, 0, nm, Seq::empty());
    assert(Seq::<CommandIndex>::empty() + s.commands.skip(0) =~= s.commands);
    let p4 = p3 + enc_cmd_idxs_from(s.commands, 0).len();
    lemma_dec_timeout_at(b, p4, s.timeout, ns);
    assert((StateV { checks: s.checks, commands: s.commands, timeout: s.timeout }) =~= s);
}

/// Encoded states from position `i` decode to the remaining suffix.
pub proof fn lemma_dec_states_at(
    b: Seq<u8>,
    p: int,
    states: Seq<StateV>,
    i: int,
    ns: int,
    nc: int,
    nm: int,
    acc: Seq<StateV>,
)
    requires
        0 <= i <= states.len(),
        forall|q: int| 0 <= q < states.len() ==> (#[trigger] states[q]).wf_in(ns, nc, nm),
        0 < ns <= 255,
        0 <= nc <= 255,
        0 <= nm <= 255,
        bytes_at(b, p, enc_states_from(states, i)),
    ensures
        dec_states(b, p, states.len() - i, ns, nc, nm, acc) == Some(
            (acc + states.skip(i), p + enc_states_from(states, i).len()),
        ),
    decreases states.len() - i,
{
    if i == states.len() {
        assert(acc + states.skip(i) =~= acc);
    } else {
        lemma_bytes_at_split(b, p, enc_state(states[i]), enc_states_from(states, i + 1));
        lemma_dec_state_at(b, p, states[i], ns, nc, nm);
        lemma_dec_states_at(
            b,
            p + enc_state(states[i]).len(),
            states,
            i + 1,
            ns,
            nc,
            nm,
            acc.push(states[i]),
        );
        assert(acc.push(states[i]) + states.skip(i + 1) =~= acc + states.skip(i));
    }
}

/// An encoded check decodes to itself.
pub proof fn lemma_dec_check_at(b: Seq<u8>, p: int, c: lowered::Check, ns: int)
    requires
        c.wf_in(ns),
        0 < ns <= 255,
        bytes_at(b, p, enc_check(c)),
    ensures
        dec_check(b, p, ns) == Some((c, p + enc_check(c).len())),
{
    lemma_bytes_at_split(b, p, enc_data(c.data), enc_outcome(c.transition));
    let p1 = p + enc_data(c.data).len();
    match c.data {
        CheckData::Altitude(FloatCondition::GreaterThan(v)) => {
            lemma_bytes_at_split(b, p, seq![0u8], enc_u32(v));
            lemma_dec_u8_at(b, p, 0);
            lemma_dec_u32_at(b, p + 1, v);
        },
        CheckData::Altitude(FloatCondition::LessThan(v)) => {
            lemma_bytes_at_split(b, p, seq![1u8], enc_u32(v));
            lemma_dec_u8_at(b, p, 1);
            lemma_dec_u32_at(b, p + 1, v);
        },
        CheckData::Altitude(FloatCondition::Between { upper_bound, lower_bound }) => {
            assert(enc_data(c.data) =~= seq![2u8] + (enc_u32(upper_bound) + enc_u32(
                lower_bound,
            )));
            lemma_bytes_at_split(b, p, seq![2u8], enc_u32(upper_bound) + enc_u32(lower_bound));
            lemma_bytes_at_split(b, p + 1, enc_u32(upper_bound), enc_u32(lower_bound));
            lemma_dec_u8_at(b, p, 2);
            lemma_dec_u32_at(b, p + 1, upper_bound);
            lemma_dec_u32_at(b, p + 5, lower_bound);
        },
        CheckData::ApogeeFlag(FlagCondition(fb)) => {
            lemma_bytes_at_split(b, p, seq![3u8], seq![enc_bool(fb)]);
            lemma_dec_u8_at(b, p, 3);
            lemma_dec_u8_at(b, p + 1, enc_bool(fb));
        },
        CheckData::Pyro1Continuity(FlagCondition(fb)) => {
            lemma_bytes_at_split(b, p, seq![4u8], seq![enc_bool(fb)]);
            lemma_dec_u8_at(b, p, 4);
            lemma_dec_u8_at(b, p + 1, enc_bool(fb));
        },
        CheckData::Pyro2Continuity(FlagCondition(fb)) => {
            lemma_bytes_at_split(b, p, seq![5u8], seq![enc_bool(fb)]);
            lemma_dec_u8_at(b, p, 5);
            lemma_dec_u8_at(b, p + 1, enc_bool(fb));
        },
        CheckData::Pyro3Continuity(FlagCondition(fb)) => {
            lemma_bytes_at_split(b, p, seq![6u8], seq![enc_bool(fb)]);
            lemma_dec_u8_at(b, p, 6);
            lemma_dec_u8_at(b, p + 1, enc_bool(fb));
        },
    }
    match c.transition {
        None => {
            lemma_dec_u8_at(b, p1, 0);
        },
        Some(StateTransition::Transition(ix)) => {
            lemma_bytes_at_split(b, p1, seq![1u8], seq![ix@ as u8]);
            lemma_dec_u8_at(b, p1, 1);
            lemma_dec_u8_at(b, p1 + 1, ix@ as u8);
            StateIndex::lemma_from_int_inverse(ix);
        },
        Some(StateTransition::Abort(ix)) => {
            lemma_bytes_at_split(b, p1, seq![2u8], seq![ix@ as u8]);
            lemma_dec_u8_at(b, p1, 2);
            lemma_dec_u8_at(b, p1 + 1, ix@ as u8);
            StateIndex::lemma_from_int_inverse(ix);
        },
    }
}

/// Encoded checks from position `i` decode to the remaining suffix.
pub proof fn lemma_dec_checks_at(
    b: Seq<u8>,
    p: int,
    checks: Seq<lowered::Check>,
    i: int,
    ns: int,
    acc: Seq<lowered::Check>,
)
    requires
        0 <= i <= checks.len(),
        forall|q: int| 0 <= q < checks.len() ==> (#[trigger] checks[q]).wf_in(ns),
        0 < ns <= 255,
        bytes_at(b, p, enc_checks_from(checks, i)),
    ensures
        dec_checks(b, p, checks.len() - i, ns, acc) == Some(
            (acc + checks.skip(i), p + enc_checks_from(checks, i).len()),
        ),
    decreases checks.len() - i,
{
    if i == checks.len() {
        assert(acc + checks.skip(i) =~= acc);
    } else {
        lemma_bytes_at_split(b, p, enc_check(checks[i]), enc_checks_from(checks, i + 1));
        lemma_dec_check_at(b, p, checks[i], ns);
        lemma_dec_checks_at(b, p + enc_check(checks[i]).len(), checks, i + 1, ns, acc.push(
            checks[i],
        ));
        assert(acc.push(checks[i]) + checks.skip(i + 1) =~= acc + checks.skip(i));
    }
}

/// An encoded command decodes to itself.
pub proof fn lemma_dec_command_at(b: Seq<u8>, p: int, c: CommandV)
    requires
        c.wf(),
        bytes_at(b, p, enc_command(c)),
    ensures
        dec_command(b, p) == Some((c, p + enc_command(c).len())),
{
    let rest1 = enc_chars_from(c.object, 0) + enc_u32(c.value) + enc_u32(c.delay);
    assert(enc_command(c) =~= seq![c.object.len() as u8] + rest1);
    lemma_bytes_at_split(b, p, seq![c.object.len() as u8], rest1);
    lemma_dec_u8_at(b, p, c.object.len() as u8);
    let p1 = p + 1;
    let rest2 = enc_u32(c.value) + enc_u32(c.delay);
    assert(rest1 =~= enc_chars_from(c.object, 0) + rest2);
    lemma_bytes_at_split(b, p1, enc_chars_from(c.object, 0), rest2);
    lemma_dec_chars_at(b, p1, c.object, 0, Seq::empty());
    assert(Seq::<char>::empty() + c.object.skip(0) =~= c.object);
    let p2 = p1 + enc_chars_from(c.object, 0).len();
    lemma_bytes_at_split(b, p2, enc_u32(c.value), enc_u32(c.delay));
    lemma_dec_u32_at(b, p2, c.value);
    lemma_dec_u32_at(b, p2 + 4, c.delay);
    assert((CommandV { object: c.object, value: c.value, delay: c.delay }) =~= c);
}

/// Encoded commands from position `i` decode to the remaining suffix.
pub proof fn lemma_dec_commands_at(
    b: Seq<u8>,
    p: int,
    commands: Seq<CommandV>,
    i: int,
    acc: Seq<CommandV>,
)
    requires
        0 <= i <= commands.len(),
        forall|q: int| 0 <= q < commands.len() ==> (#[trigger] commands[q]).wf(),
        bytes_at(b, p, enc_commands_from(commands, i)),
    ensures
        dec_commands(b, p, commands.len() - i, acc) == Some(
            (acc + commands.skip(i), p + enc_commands_from(commands, i).len()),
        ),
    decreases commands.len() - i,
{
    if i == commands.len() {
        assert(acc + commands.skip(i) =~= acc);
    } else {
        lemma_bytes_at_split(b, p, enc_command(commands[i]), enc_commands_from(commands, i + 1));
        lemma_dec_command_at(b, p, commands[i]);
        lemma_dec_commands_at(b, p + enc_command(commands[i]).len(), commands, i + 1, acc.push(
            commands[i],
        ));
        assert(acc.push(commands[i]) + commands.skip(i + 1) =~= acc + commands.skip(i));
    }
}

/// Round trip: decoding the encoding of any well-formed lowered
/// configuration yields exactly that configuration.
pub proof fn lemma_round_trip(v: ConfigV)
    requires
        v.wf(),
    ensures
        dec(enc(v)) == Some(v),
{
    let b = enc(v);
    let header = seq![
        v.states.len() as u8,
        v.checks.len() as u8,
        v.commands.len() as u8,
        v.default_state@ as u8,
    ];
    let sts = enc_states_from(v.states, 0);
    let cks = enc_checks_from(v.checks, 0);
    let cmds = enc_commands_from(v.commands, 0);
    assert(b =~= header + (sts + (cks + cmds)));
    assert(bytes_at(b, 0, b));
    lemma_bytes_at_split(b, 0, header, sts + (cks + cmds));
    assert(bytes_at(b, 0, header));
    assert(header =~= seq![v.states.len() as u8] + (seq![v.checks.len() as u8] + (seq![
        v.commands.len() as u8,
    ] + seq![v.default_state@ as u8])));
    lemma_bytes_at_split(
        b,
        0,
        seq![v.states.len() as u8],
        seq![v.checks.len() as u8] + (seq![v.commands.len() as u8] + seq![v.default_state@ as u8]),
    );
    lemma_bytes_at_split(
        b,
        1,
        seq![v.checks.len() as u8],
        seq![v.commands.len() as u8] + seq![v.default_state@ as u8],
    );
    lemma_bytes_at_split(b, 2, seq![v.commands.len() as u8], seq![v.default_state@ as u8]);
    lemma_dec_u8_at(b, 0, v.states.len() as u8);
    lemma_dec_u8_at(b, 1, v.checks.len() as u8);
    lemma_dec_u8_at(b, 2, v.commands.len() as u8);
    lemma_dec_u8_at(b, 3, v.default_state@ as u8);
    lemma_bytes_at_split(b, 4, sts, cks + cmds);
    lemma_dec_states_at(
        b,
        4,
        v.states,
        0,
        v.states.len() as int,
        v.checks.len() as int,
        v.commands.len() as int,
        Seq::empty(),
    );
    assert(Seq::<StateV>::empty() + v.states.skip(0) =~= v.states);
    let p5: int = 4 + sts.len() as int;
    lemma_bytes_at_split(b, p5, cks, cmds);
    lemma_dec_checks_at(b, p5, v.checks, 0, v.states.len() as int, Seq::empty());
    assert(Seq::<lowered::Check>::empty() + v.checks.skip(0) =~= v.checks);
    let p6: int = p5 + cks.len() as int;
    lemma_dec_commands_at(b, p6, v.commands, 0, Seq::empty());
    assert(Seq::<CommandV>::empty() + v.commands.skip(0) =~= v.commands);
    StateIndex::lemma_from_int_inverse(v.default_state);
    assert(dec(b) == Some(
        ConfigV {
            default_state: v.default_state,
            states: v.states,
            checks: v.checks,
            commands: v.commands,
        },
    ));
    assert((ConfigV {
        default_state: v.default_state,
        states: v.states,
        checks: v.checks,
        commands: v.commands,
    }) =~= v);
}

/// A decoded character list has the expected length.
pub proof fn lemma_dec_chars_len(b: Seq<u8>, p: int, n: int, acc: Seq<char>)
    requires
        n >= 0,
    ensures
        dec_chars(b, p, n, acc) matches Some(r) ==> r.0.len() == acc.len() + n,
    decreases n,
{
    if n > 0 {
        match dec_u32(b, p) {
            None => {},
            Some((w, p1)) => {
                if is_scalar(w) {
                    lemma_dec_chars_len(b, p1, n - 1, acc.push(w as char));
                }
            },
        }
    }
}

/// A decoded check-index list has the expected length and every index
/// under the bound.
pub proof fn lemma_dec_chk_idxs_wf(b: Seq<u8>, p: int, n: int, bound: int, acc: Seq<CheckIndex>)
    requires
        n >= 0,
        0 <= bound <= 256,
        forall|q: int| 0 <= q < acc.len() ==> 0 <= (#[trigger] acc[q])@ < bound,
    ensures
        dec_chk_idxs(b, p, n, bound, acc) matches Some(r) ==> r.0.len() == acc.len() + n
            && forall|q: int| 0 <= q < r.0.len() ==> 0 <= (#[trigger] r.0[q])@ < bound,
    decreases n,
{
    if n > 0 {
        match dec_u8(b, p) {
            None => {},
            Some((x, p1)) => {
                if (x as int) < bound {
                    CheckIndex::lemma_from_int_view(x as int);
                    lemma_dec_chk_idxs_wf(
                        b,
                        p1,
                        n - 1,
                        bound,
                        acc.push(CheckIndex::from_int(x as int)),
                    );
                }
            },
        }
    }
}

/// A decoded command-index list has the expected length and every index
/// under the bound.
pub proof fn lemma_dec_cmd_idxs_wf(b: Seq<u8>, p: int, n: int, bound: int, acc: Seq<CommandIndex>)
    requires
        n >= 0,
        0 <= bound <= 256,
        forall|q: int| 0 <= q < acc.len() ==> 0 <= (#[trigger] acc[q])@ < bound,
    ensures
        dec_cmd_idxs(b, p, n, bound, acc) matches Some(r) ==> r.0.len() == acc.len() + n
            && forall|q: int| 0 <= q < r.0.len() ==> 0 <= (#[trigger] r.0[q])@ < bound,
    decreases n,
{
    if n > 0 {
        match dec_u8(b, p) {
            None => {},
            Some((x, p1)) => {
                if (x as int) < bound {
                    CommandIndex::lemma_from_int_view(x as int);
                    lemma_dec_cmd_idxs_wf(
                        b,
                        p1,
                        n - 1,
                        bound,
                        acc.push(CommandIndex::from_int(x as int)),
                    );
                }
            },
        }
    }
}

/// A decoded state is well formed with respect to the pool sizes it was
/// decoded against.
pub proof fn lemma_dec_state_wf(b: Seq<u8>, p: int, ns: int, nc: int, nm: int)
    requires
        0 <= ns <= 256,
        0 <= nc <= 256,
        0 <= nm <= 256,
    ensures
        dec_state(b, p, ns, nc, nm) matches Some(r) ==> r.0.wf_in(ns, nc, nm),
{
    match dec_u8(b, p) {
        None => {},
        Some((nchk, p1)) => {
            if nchk as int <= MAX_CHECKS_PER_STATE {
                lemma_dec_chk_idxs_wf(b, p1, nchk as int, nc, Seq::empty());
                match dec_chk_idxs(b, p1, nchk as int, nc, Seq::empty()) {
                    None => {},
                    Some((chk_idxs, p2)) => {
                        match dec_u8(b, p2) {
                            None => {},
                            Some((ncmd, p3)) => {
                                if ncmd as int <= MAX_COMMANDS_PER_STATE {
                                    lemma_dec_cmd_idxs_wf(b, p3, ncmd as int, nm, Seq::empty());
                                    match dec_cmd_idxs(b, p3, ncmd as int, nm, Seq::empty()) {
                                        None => {},
                                        Some((cmd_idxs, p4)) => {
                                            match dec_u8(b, p4) {
                                                None => {},
                                                Some((tag, p5)) => {
                                                    if tag == 1 {
                                                        match dec_u32(b, p5) {
                                                            None => {},
                                                            Some((_, p6)) => {
                                                                match dec_u8(b, p6) {
                                                                    None => {},
                                                                    Some((st, _)) => {
                                                                        StateIndex::lemma_from_int_view(
                                                                            st as int,
                                                                        );
                                                                    },
                                                                }
                                                            },
                                                        }
                                                    }
                                                },
                                            }
                                        },
                                    }
                                }
                            },
                        }
                    },
                }
            }
        },
    }
}

/// All decoded states are well formed with respect to the pool sizes.
pub proof fn lemma_dec_states_wf(
    b: Seq<u8>,
    p: int,
    n: int,
    ns: int,
    nc: int,
    nm: int,
    acc: Seq<StateV>,
)
    requires
        n >= 0,
        0 <= ns <= 256,
        0 <= nc <= 256,
        0 <= nm <= 256,
        forall|q: int| 0 <= q < acc.len() ==> (#[trigger] acc[q]).wf_in(ns, nc, nm),
    ensures
        dec_states(b, p, n, ns, nc, nm, acc) matches Some(r) ==> r.0.len() == acc.len() + n
            && forall|q: int| 0 <= q < r.0.len() ==> (#[trigger] r.0[q]).wf_in(ns, nc, nm),
    decreases n,
{
    if n > 0 {
        match dec_state(b, p, ns, nc, nm) {
            None => {},
            Some((s, p1)) => {
                lemma_dec_state_wf(b, p, ns, nc, nm);
                lemma_dec_states_wf(b, p1, n - 1, ns, nc, nm, acc.push(s));
            },
        }
    }
}

/// A decoded check is well formed with respect to the state count.
pub proof fn lemma_dec_check_wf(b: Seq<u8>, p: int, ns: int)
    requires
        0 <= ns <= 256,
    ensures
        dec_check(b, p, ns) matches Some(r) ==> r.0.wf_in(ns),
{
    match dec_data(b, p) {
        None => {},
        Some((_, p1)) => {
            match dec_u8(b, p1) {
                None => {},
                Some((tag, p2)) => {
                    if tag == 1 || tag == 2 {
                        match dec_u8(b, p2) {
                            None => {},
                            Some((x, _)) => {
                                StateIndex::lemma_from_int_view(x as int);
                            },
                        }
                    }
                },
            }
        },
    }
}

/// All decoded checks are well formed, and the list has the expected
/// length.
pub proof fn lemma_dec_checks_wf(b: Seq<u8>, p: int, n: int, ns: int, acc: Seq<lowered::Check>)
    requires
        n >= 0,
        0 <= ns <= 256,
        forall|q: int| 0 <= q < acc.len() ==> (#[trigger] acc[q]).wf_in(ns),
    ensures
        dec_checks(b, p, n, ns, acc) matches Some(r) ==> r.0.len() == acc.len() + n && forall|
            q: int,
        | 0 <= q < r.0.len() ==> (#[trigger] r.0[q]).wf_in(ns),
    decreases n,
{
    if n > 0 {
        match dec_check(b, p, ns) {
            None => {},
            Some((c, p1)) => {
                lemma_dec_check_wf(b, p, ns);
                lemma_dec_checks_wf(b, p1, n - 1, ns, acc.push(c));
            },
        }
    }
}

/// A decoded command is well formed: its identifier fits the length byte.
pub proof fn lemma_dec_command_wf(b: Seq<u8>, p: int)
    ensures
        dec_command(b, p) matches Some(r) ==> r.0.wf(),
{
    match dec_u8(b, p) {
        None => {},
        Some((len, p1)) => {
            lemma_dec_chars_len(b, p1, len as int, Seq::empty());
        },
    }
}

/// All decoded commands are well formed, and the list has the expected
/// length.
pub proof fn lemma_dec_commands_wf(b: Seq<u8>, p: int, n: int, acc: Seq<CommandV>)
    requires
        n >= 0,
        forall|q: int| 0 <= q < acc.len() ==> (#[trigger] acc[q]).wf(),
    ensures
        dec_commands(b, p, n, acc) matches Some(r) ==> r.0.len() == acc.len() + n && forall|q: int|
            0 <= q < r.0.len() ==> (#[trigger] r.0[q]).wf(),
    decreases n,
{
    if n > 0 {
        match dec_command(b, p) {
            None => {},
            Some((c, p1)) => {
                lemma_dec_command_wf(b, p);
                lemma_dec_commands_wf(b, p1, n - 1, acc.push(c));
            },
        }
    }
}

/// Index safety of the decoder: whatever bytes it accepts, the decoded
/// configuration is well formed — every index points into its pool.
pub proof fn lemma_dec_wf(b: Seq<u8>)
    ensures
        dec(b) matches Some(v) ==> v.wf(),
{
    match dec_u8(b, 0) {
        None => {},
        Some((ns, p1)) => {
            if ns != 0 {
                match (dec_u8(b, p1), dec_u8(b, p1 + 1), dec_u8(b, p1 + 2)) {
                    (Some((nc, _)), Some((nm, _)), Some((ds, p4))) => {
                        if (ds as int) < ns as int {
                            lemma_dec_states_wf(
                                b,
                                p4,
                                ns as int,
                                ns as int,
                                nc as int,
                                nm as int,
                                Seq::empty(),
                            );
                            match dec_states(
                                b,
                                p4,
                                ns as int,
                                ns as int,
                                nc as int,
                                nm as int,
                                Seq::empty(),
                            ) {
                                None => {},
                                Some((_, p5)) => {
                                    lemma_dec_checks_wf(b, p5, nc as int, ns as int, Seq::empty());
                                    match dec_checks(b, p5, nc as int, ns as int, Seq::empty()) {
                                        None => {},
                                        Some((_, p6)) => {
                                            lemma_dec_commands_wf(b, p6, nm as int, Seq::empty());
                                            StateIndex::lemma_from_int_view(ds as int);
                                        },
                                    }
                                },
                            }
                        }
                    },
                    _ => {},
                }
            }
        },
    }
}

/// Relies on `char::from_u32`: `Some` exactly for a Unicode scalar value,
/// mapping it to the character with that code point.
#[verifier::external_body]
fn char_from_u32(v: u32) -> (r: Option<char>)
    ensures
        r is Some <==> is_scalar(v),
        r matches Some(c) ==> c as u32 == v,
{
    char::from_u32(v)
}

/// Relies on `String`'s `FromIterator<char>`: collecting characters
/// yields the string of exactly those characters, in order.
#[verifier::external_body]
fn string_from_chars(chars: &Vec<char>) -> (r: String)
    ensures
        r@ == chars@,
{
    chars.iter().copied().collect()
}

/// Reads one byte; exact with respect to [`dec_u8`].
fn read_u8(bytes: &Vec<u8>, p: usize) -> (r: Option<(u8, usize)>)
    ensures
        match r {
            Some((x, p2)) => dec_u8(bytes@, p as int) == Some((x, p2 as int)),
            None => dec_u8(bytes@, p as int) is None,
        },
{
    if p < bytes.len() {
        Some((bytes[p], p + 1))
    } else {
        None
    }
}

/// Reads a little-endian `u32`; exact with respect to [`dec_u32`].
fn read_u32(bytes: &Vec<u8>, p: usize) -> (r: Option<(u32, usize)>)
    ensures
        match r {
            Some((x, p2)) => dec_u32(bytes@, p as int) == Some((x, p2 as int)),
            None => dec_u32(bytes@, p as int) is None,
        },
{
    if bytes.len() >= 4 && p <= bytes.len() - 4 {
        let x = (bytes[p] as u32) | ((bytes[p + 1] as u32) << 8) | ((bytes[p + 2] as u32) << 16)
            | ((bytes[p + 3] as u32) << 24);
        Some((x, p + 4))
    } else {
        None
    }
}

/// Reads `n` characters; exact with respect to [`dec_chars`].
#[verifier::loop_isolation(false)]
fn read_chars(bytes: &Vec<u8>, p: usize, n: usize) -> (r: Option<(Vec<char>, usize)>)
    ensures
        match r {
            Some((v, p2)) => dec_chars(bytes@, p as int, n as int, Seq::empty()) == Some(
                (v@, p2 as int),
            ),
            None => dec_chars(bytes@, p as int, n as int, Seq::empty()) is None,
        },
{
    let mut acc: Vec<char> = Vec::new();
    let mut p_cur = p;
    let mut left = n;
    proof {
        assert(acc@ =~= Seq::<char>::empty());
    }
    while left > 0
        invariant
            dec_chars(bytes@, p as int, n as int, Seq::empty()) == dec_chars(
                bytes@,
                p_cur as int,
                left as int,
                acc@,
            ),
        decreases left,
    {
        let (w, p2) = match read_u32(bytes, p_cur) {
            Some(x) => x,
            None => {
                return None;
            },
        };
        let c = match char_from_u32(w) {
            Some(c) => c,
            None => {
                return None;
            },
        };
        proof {
            char_u32_cast(c, w);
        }
        acc.push(c);
        p_cur = p2;
        left = left - 1;
    }
    Some((acc, p_cur))
}

/// Reads `n` check indices under `bound`; exact with respect to
/// [`dec_chk_idxs`].
#[verifier::loop_isolation(false)]
fn read_chk_idxs(bytes: &Vec<u8>, p: usize, n: usize, bound: usize) -> (r: Option<
    (Vec<CheckIndex>, usize),
>)
    ensures
        match r {
            Some((v, p2)) => dec_chk_idxs(bytes@, p as int, n as int, bound as int, Seq::empty())
                == Some((v@, p2 as int)),
            None => dec_chk_idxs(bytes@, p as int, n as int, bound as int, Seq::empty()) is None,
        },
{
    let mut acc: Vec<CheckIndex> = Vec::new();
    let mut p_cur = p;
    let mut left = n;
    proof {
        assert(acc@ =~= Seq::<CheckIndex>::empty());
    }
    while left > 0
        invariant
            dec_chk_idxs(bytes@, p as int, n as int, bound as int, Seq::empty()) == dec_chk_idxs(
                bytes@,
                p_cur as int,
                left as int,
                bound as int,
                acc@,
            ),
        decreases left,
    {
        let (x, p2) = match read_u8(bytes, p_cur) {
            Some(x) => x,
            None => {
                return None;
            },
        };
        let ix = match CheckIndex::new(x, bound) {
            Some(ix) => ix,
            None => {
                return None;
            },
        };
        acc.push(ix);
        p_cur = p2;
        left = left - 1;
    }
    Some((acc, p_cur))
}

/// Reads `n` command indices under `bound`; exact with respect to
/// [`dec_cmd_idxs`].
#[verifier::loop_isolation(false)]
fn read_cmd_idxs(bytes: &Vec<u8>, p: usize, n: usize, bound: usize) -> (r: Option<
    (Vec<CommandIndex>, usize),
>)
    ensures
        match r {
            Some((v, p2)) => dec_cmd_idxs(bytes@, p as int, n as int, bound as int, Seq::empty())
                == Some((v@, p2 as int)),
            None => dec_cmd_idxs(bytes@, p as int, n as int, bound as int, Seq::empty()) is None,
        },
{
    let mut acc: Vec<CommandIndex> = Vec::new();
    let mut p_cur = p;
    let mut left = n;
    proof {
        assert(acc@ =~= Seq::<CommandIndex>::empty());
    }
    while left > 0
        invariant
            dec_cmd_idxs(bytes@, p as int, n as int, bound as int, Seq::empty()) == dec_cmd_idxs(
                bytes@,
                p_cur as int,
                left as int,
                bound as int,
                acc@,
            ),
        decreases left,
    {
        let (x, p2) = match read_u8(bytes, p_cur) {
            Some(x) => x,
            None => {
                return None;
            },
        };
        let ix = match CommandIndex::new(x, bound) {
            Some(ix) => ix,
            None => {
                return None;
            },
        };
        acc.push(ix);
        p_cur = p2;
        left = left - 1;
    }
    Some((acc, p_cur))
}

/// Reads an optional timeout; exact with respect to [`dec_timeout`].
fn read_timeout(bytes: &Vec<u8>, p: usize, ns: usize) -> (r: Option<
    (Option<lowered::Timeout>, usize),
>)
    ensures
        match r {
            Some((t, p2)) => dec_timeout(bytes@, p as int, ns as int) == Some((t, p2 as int)),
            None => dec_timeout(bytes@, p as int, ns as int) is None,
        },
{
    let (tag, p1) = match read_u8(bytes, p) {
        Some(x) => x,
        None => {
            return None;
        },
    };
    if tag == 0 {
        Some((None, p1))
    } else if tag == 1 {
        let (ticks, p2) = match read_u32(bytes, p1) {
            Some(x) => x,
            None => {
                return None;
            },
        };
        let (st, p3) = match read_u8(bytes, p2) {
            Some(x) => x,
            None => {
                return None;
            },
        };
        let target = match StateIndex::new(st, ns) {
            Some(ix) => ix,
            None => {
                return None;
            },
        };
        Some((Some(lowered::Timeout { ticks, state: target }), p3))
    } else {
        None
    }
}

/// Reads one state; exact with respect to [`dec_state`].
fn read_state(bytes: &Vec<u8>, p: usize, ns: usize, nc: usize, nm: usize) -> (r: Option<
    (lowered::State, usize),
>)
    ensures
        match r {
            Some((s, p2)) => dec_state(bytes@, p as int, ns as int, nc as int, nm as int) == Some(
                (s@, p2 as int),
            ),
            None => dec_state(bytes@, p as int, ns as int, nc as int, nm as int) is None,
        },
{
    let (nchk, p1) = match read_u8(bytes, p) {
        Some(x) => x,
        None => {
            return None;
        },
    };
    if nchk as usize > MAX_CHECKS_PER_STATE {
        return None;
    }
    let (chk_idxs, p2) = match read_chk_idxs(bytes, p1, nchk as usize, nc) {
        Some(x) => x,
        None => {
            return None;
        },
    };
    let (ncmd, p3) = match read_u8(bytes, p2) {
        Some(x) => x,
        None => {
            return None;
        },
    };
    if ncmd as usize > MAX_COMMANDS_PER_STATE {
        return None;
    }
    let (cmd_idxs, p4) = match read_cmd_idxs(bytes, p3, ncmd as usize, nm) {
        Some(x) => x,
        None => {
            return None;
        },
    };
    let (timeout, p5) = match read_timeout(bytes, p4, ns) {
        Some(x) => x,
        None => {
            return None;
        },
    };
    Some((lowered::State { checks: chk_idxs, commands: cmd_idxs, timeout }, p5))
}

/// Reads `n` states; exact with respect to [`dec_states`].
#[verifier::loop_isolation(false)]
fn read_states(bytes: &Vec<u8>, p: usize, n: usize, ns: usize, nc: usize, nm: usize) -> (r: Option<
    (Vec<lowered::State>, usize),
>)
    ensures
        match r {
            Some((v, p2)) => dec_states(
                bytes@,
                p as int,
                n as int,
                ns as int,
                nc as int,
                nm as int,
                Seq::empty(),
            ) == Some((v@.map_values(|s: lowered::State| s@), p2 as int)),
            None => dec_states(
                bytes@,
                p as int,
                n as int,
                ns as int,
                nc as int,
                nm as int,
                Seq::empty(),
            ) is None,
        },
{
    let mut acc: Vec<lowered::State> = Vec::new();
    let mut p_cur = p;
    let mut left = n;
    proof {
        assert(acc@.map_values(|s: lowered::State| s@) =~= Seq::<StateV>::empty());
    }
    while left > 0
        invariant
            dec_states(
                bytes@,
                p as int,
                n as int,
                ns as int,
                nc as int,
                nm as int,
                Seq::empty(),
            ) == dec_states(
                bytes@,
                p_cur as int,
                left as int,
                ns as int,
                nc as int,
                nm as int,
                acc@.map_values(|s: lowered::State| s@),
            ),
        decreases left,
    {
        let ghost acc_prev = acc@.map_values(|s: lowered::State| s@);
        let (s, p2) = match read_state(bytes, p_cur, ns, nc, nm) {
            Some(x) => x,
            None => {
                return None;
            },
        };
        let ghost sv = s@;
        acc.push(s);
        p_cur = p2;
        left = left - 1;
        proof {
            assert(acc@.map_values(|s: lowered::State| s@) =~= acc_prev.push(sv));
        }
    }
    Some((acc, p_cur))
}

/// Reads one check; exact with respect to [`dec_check`].
fn read_check(bytes: &Vec<u8>, p: usize, ns: usize) -> (r: Option<(lowered::Check, usize)>)
    ensures
        match r {
            Some((c, p2)) => dec_check(bytes@, p as int, ns as int) == Some((c, p2 as int)),
            None => dec_check(bytes@, p as int, ns as int) is None,
        },
{
    let (tag, p1) = match read_u8(bytes, p) {
        Some(x) => x,
        None => {
            return None;
        },
    };
    let (data, pd) = if tag == 0 {
        let (v, p2) = match read_u32(bytes, p1) {
            Some(x) => x,
            None => {
                return None;
            },
        };
        (CheckData::Altitude(FloatCondition::GreaterThan(v)), p2)
    } else if tag == 1 {
        let (v, p2) = match read_u32(bytes, p1) {
            Some(x) => x,
            None => {
                return None;
            },
        };
        (CheckData::Altitude(FloatCondition::LessThan(v)), p2)
    } else if tag == 2 {
        let (u, p2) = match read_u32(bytes, p1) {
            Some(x) => x,
            None => {
                return None;
            },
        };
        let (l, p3) = match read_u32(bytes, p2) {
            Some(x) => x,
            None => {
                return None;
            },
        };
        (CheckData::Altitude(FloatCondition::Between { upper_bound: u, lower_bound: l }), p3)
    } else if tag == 3 || tag == 4 || tag == 5 || tag == 6 {
        let (fb, p2) = match read_u8(bytes, p1) {
            Some(x) => x,
            None => {
                return None;
            },
        };
        if fb > 1 {
            return None;
        }
        let cond = FlagCondition(fb == 1);
        (
            if tag == 3 {
                CheckData::ApogeeFlag(cond)
            } else if tag == 4 {
                CheckData::Pyro1Continuity(cond)
            } else if tag == 5 {
                CheckData::Pyro2Continuity(cond)
            } else {
                CheckData::Pyro3Continuity(cond)
            },
            p2,
        )
    } else {
        return None;
    };
    let (otag, po) = match read_u8(bytes, pd) {
        Some(x) => x,
        None => {
            return None;
        },
    };
    let (transition, pt) = if otag == 0 {
        (None, po)
    } else if otag == 1 || otag == 2 {
        let (x, p2) = match read_u8(bytes, po) {
            Some(x) => x,
            None => {
                return None;
            },
        };
        let ix = match StateIndex::new(x, ns) {
            Some(ix) => ix,
            None => {
                return None;
            },
        };
        (
            Some(
                if otag == 1 {
                    StateTransition::Transition(ix)
                } else {
                    StateTransition::Abort(ix)
                },
            ),
            p2,
        )
    } else {
        return None;
    };
    Some((lowered::Check { data, transition }, pt))
}

/// Reads `n` checks; exact with respect to [`dec_checks`].
#[verifier::loop_isolation(false)]
fn read_checks(bytes: &Vec<u8>, p: usize, n: usize, ns: usize) -> (r: Option<
    (Vec<lowered::Check>, usize),
>)
    ensures
        match r {
            Some((v, p2)) => dec_checks(bytes@, p as int, n as int, ns as int, Seq::empty())
                == Some((v@, p2 as int)),
            None => dec_checks(bytes@, p as int, n as int, ns as int, Seq::empty()) is None,
        },
{
    let mut acc: Vec<lowered::Check> = Vec::new();
    let mut p_cur = p;
    let mut left = n;
    proof {
        assert(acc@ =~= Seq::<lowered::Check>::empty());
    }
    while left > 0
        invariant
            dec_checks(bytes@, p as int, n as int, ns as int, Seq::empty()) == dec_checks(
                bytes@,
                p_cur as int,
                left as int,
                ns as int,
                acc@,
            ),
        decreases left,
    {
        let (c, p2) = match read_check(bytes, p_cur, ns) {
            Some(x) => x,
            None => {
                return None;
            },
        };
        acc.push(c);
        p_cur = p2;
        left = left - 1;
    }
    Some((acc, p_cur))
}

/// Reads one command; exact with respect to [`dec_command`].
fn read_command(bytes: &Vec<u8>, p: usize) -> (r: Option<(lowered::Command, usize)>)
    ensures
        match r {
            Some((c, p2)) => dec_command(bytes@, p as int) == Some((c@, p2 as int)),
            None => dec_command(bytes@, p as int) is None,
        },
{
    let (len, p1) = match read_u8(bytes, p) {
        Some(x) => x,
        None => {
            return None;
        },
    };
    let (chars, p2) = match read_chars(bytes, p1, len as usize) {
        Some(x) => x,
        None => {
            return None;
        },
    };
    let object = string_from_chars(&chars);
    let (value, p3) = match read_u32(bytes, p2) {
        Some(x) => x,
        None => {
            return None;
        },
    };
    let (delay, p4) = match read_u32(bytes, p3) {
        Some(x) => x,
        None => {
            return None;
        },
    };
    Some((lowered::Command { object, value, delay }, p4))
}

/// Reads `n` commands; exact with respect to [`dec_commands`].
#[verifier::loop_isolation(false)]
fn read_commands(bytes: &Vec<u8>, p: usize, n: usize) -> (r: Option<
    (Vec<lowered::Command>, usize),
>)
    ensures
        match r {
            Some((v, p2)) => dec_commands(bytes@, p as int, n as int, Seq::empty()) == Some(
                (v@.map_values(|c: lowered::Command| c@), p2 as int),
            ),
            None => dec_commands(bytes@, p as int, n as int, Seq::empty()) is None,
        },
{
    let mut acc: Vec<lowered::Command> = Vec::new();
    let mut p_cur = p;
    let mut left = n;
    proof {
        assert(acc@.map_values(|c: lowered::Command| c@) =~= Seq::<CommandV>::empty());
    }
    while left > 0
        invariant
            dec_commands(bytes@, p as int, n as int, Seq::empty()) == dec_commands(
                bytes@,
                p_cur as int,
                left as int,
                acc@.map_values(|c: lowered::Command| c@),
            ),
        decreases left,
    {
        let ghost acc_prev = acc@.map_values(|c: lowered::Command| c@);
        let (c, p2) = match read_command(bytes, p_cur) {
            Some(x) => x,
            None => {
                return None;
            },
        };
        let ghost cv = c@;
        acc.push(c);
        p_cur = p2;
        left = left - 1;
        proof {
            assert(acc@.map_values(|c: lowered::Command| c@) =~= acc_prev.push(cv));
        }
    }
    Some((acc, p_cur))
}

/// Deserializes a lowered configuration from its binary encoding; exact
/// with respect to [`dec`]: it accepts exactly the byte strings the spec
/// decoder accepts, and yields exactly the configuration the spec decoder
/// yields. Index values are rebuilt only through the checked factories.
pub fn decode(bytes: &Vec<u8>) -> (r: Option<lowered::ConfigFile>)
    ensures
        match r {
            Some(c) => dec(bytes@) == Some(c@) && c@.wf(),
            None => dec(bytes@) is None,
        },
{
    proof {
        lemma_dec_wf(bytes@);
    }
    let (ns, p1) = match read_u8(bytes, 0) {
        Some(x) => x,
        None => {
            return None;
        },
    };
    if ns == 0 {
        return None;
    }
    let (nc, p2) = match read_u8(bytes, p1) {
        Some(x) => x,
        None => {
            return None;
        },
    };
    let (nm, p3) = match read_u8(bytes, p2) {
        Some(x) => x,
        None => {
            return None;
        },
    };
    let (ds, p4) = match read_u8(bytes, p3) {
        Some(x) => x,
        None => {
            return None;
        },
    };
    let default_state = match StateIndex::new(ds, ns as usize) {
        Some(ix) => ix,
        None => {
            return None;
        },
    };
    let (states, p5) = match read_states(bytes, p4, ns as usize, ns as usize, nc as usize, nm
        as usize) {
        Some(x) => x,
        None => {
            return None;
        },
    };
    let (checks, p6) = match read_checks(bytes, p5, nc as usize, ns as usize) {
        Some(x) => x,
        None => {
            return None;
        },
    };
    let (commands, p7) = match read_commands(bytes, p6, nm as usize) {
        Some(x) => x,
        None => {
            return None;
        },
    };
    if p7 != bytes.len() {
        return None;
    }
    let c = lowered::ConfigFile { default_state, states, checks, commands };
    proof {
        assert(c@ =~= dec(bytes@)->Some_0);
    }
    Some(c)
}

} // verus!
