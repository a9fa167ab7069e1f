//! The check validator and lowerer.
//!
//! For one check of the upper representation this stage enforces, in order:
//! that exactly one condition shape is set (`greater_than`, the pair
//! `lower_bound`/`upper_bound`, or `flag`); that the shape is compatible
//! with the check's target metric; that at most one of `transition` and
//! `abort` is set; and that whichever outcome is set names a declared
//! state. The result is a self-contained [`lowered::Check`] carrying no
//! string data.
use vstd::prelude::*;

use crate::error::{CheckConditionError, Error, ErrorV};
use crate::lowered;
use crate::lowered::{CheckData, FlagCondition, FloatCondition, StateIndex, StateTransition};
use crate::resolver::{find_name, lemma_find_name_from_bounds, StateTable};
use crate::upper;
use crate::upper::{CheckU, FlagSetting, Metric};

verus! {

/// A check's condition once a single shape has been selected.
#[derive(Clone, Copy, Debug, PartialEq, Eq, Structural)]
pub enum Condition {
    /// Trips when the metric exceeds the value (bits of an `f32`).
    GreaterThan(u32),
    /// Trips when the metric lies between the two values (bits of an `f32`).
    Between { upper_bound: u32, lower_bound: u32 },
    /// Trips when the metric's flag equals the value.
    FlagEq(bool),
}

/// Whether exactly one of `lower_bound` / `upper_bound` is set.
pub open spec fn unmatched_bound(c: CheckU) -> bool {
    (c.upper_bound is Some) != (c.lower_bound is Some)
}

/// How many of the mutually exclusive condition shapes are set.
pub open spec fn cond_count(c: CheckU) -> int {
    (if c.greater_than is Some {
        1int
    } else {
        0int
    }) + (if c.upper_bound is Some && c.lower_bound is Some {
        1int
    } else {
        0int
    }) + (if c.flag is Some {
        1int
    } else {
        0int
    })
}

/// The one condition a check sets, meaningful when exactly one shape is set.
pub open spec fn cond_of(c: CheckU) -> Condition {
    match c.greater_than {
        Some(v) => Condition::GreaterThan(v),
        None => match (c.upper_bound, c.lower_bound) {
            (Some(u), Some(l)) => Condition::Between { upper_bound: u, lower_bound: l },
            _ => match c.flag {
                Some(f) => Condition::FlagEq(f == FlagSetting::On),
                None => Condition::GreaterThan(0),
            },
        },
    }
}

/// The compatibility table between a target metric and a condition shape:
/// the single source of truth for which combinations lower, and to what.
pub open spec fn data_for(metric: Metric, cond: Condition) -> Option<CheckData> {
    match (metric, cond) {
        (Metric::Altitude, Condition::GreaterThan(v)) => Some(
            CheckData::Altitude(FloatCondition::GreaterThan(v)),
        ),
        (Metric::Altitude, Condition::Between { upper_bound, lower_bound }) => Some(
            CheckData::Altitude(FloatCondition::Between { upper_bound, lower_bound }),
        ),
        (Metric::Apogee, Condition::FlagEq(b)) => Some(CheckData::ApogeeFlag(FlagCondition(b))),
        (Metric::Pyro1Continuity, Condition::FlagEq(b)) => Some(
            CheckData::Pyro1Continuity(FlagCondition(b)),
        ),
        (Metric::Pyro2Continuity, Condition::FlagEq(b)) => Some(
            CheckData::Pyro2Continuity(FlagCondition(b)),
        ),
        (Metric::Pyro3Continuity, Condition::FlagEq(b)) => Some(
            CheckData::Pyro3Continuity(FlagCondition(b)),
        ),
        _ => None,
    }
}

/// What lowering one check returns: the lowered check, or the exact error,
/// for every possible input.
pub open spec fn convert_check_spec(c: CheckU, names: Seq<Seq<char>>) -> Result<
    lowered::Check,
    ErrorV,
> {
    if unmatched_bound(c) {
        Err(ErrorV::CheckCondition(CheckConditionError::UnmatchedBound))
    } else if cond_count(c) == 0 {
        Err(ErrorV::CheckCondition(CheckConditionError::NoCondition))
    } else if cond_count(c) > 1 {
        Err(ErrorV::CheckCondition(CheckConditionError::TooManyConditions(cond_count(c) as usize)))
    } else {
        match data_for(c.check, cond_of(c)) {
            None => Err(ErrorV::CheckTypeMismatch),
            Some(data) => {
                if c.transition is Some && c.abort is Some {
                    Err(ErrorV::ConflictingOutcome)
                } else {
                    match c.transition {
                        Some(n) => match find_name(names, n) {
                            Some(i) => Ok(
                                lowered::Check {
                                    data,
                                    transition: Some(
                                        StateTransition::Transition(StateIndex::from_int(i)),
                                    ),
                                },
                            ),
                            None => Err(ErrorV::StateNotFound(n)),
                        },
                        None => match c.abort {
                            Some(n) => match find_name(names, n) {
                                Some(i) => Ok(
                                    lowered::Check {
                                        data,
                                        transition: Some(
                                            StateTransition::Abort(StateIndex::from_int(i)),
                                        ),
                                    },
                                ),
                                None => Err(ErrorV::StateNotFound(n)),
                            },
                            None => Ok(lowered::Check { data, transition: None }),
                        },
                    }
                }
            },
        }
    }
}

/// Lowers one check against the resolver's table.
pub fn convert_check(check: &upper::Check, table: &StateTable) -> (r: Result<lowered::Check, Error>)
    requires
        table.wf(),
    ensures
        match r {
            Ok(c) => convert_check_spec(check@, table@) == Ok::<lowered::Check, ErrorV>(c)
                && c.wf_in(table@.len() as int),
            Err(e) => convert_check_spec(check@, table@) == Err::<lowered::Check, ErrorV>(e@),
        },
{
    if check.upper_bound.is_some() != check.lower_bound.is_some() {
        return Err(Error::CheckCondition(CheckConditionError::UnmatchedBound));
    }
    let mut count: usize = 0;
    if check.greater_than.is_some() {
        count = count + 1;
    }
    if check.upper_bound.is_some() && check.lower_bound.is_some() {
        count = count + 1;
    }
    if check.flag.is_some() {
        count = count + 1;
    }
    if count == 0 {
        return Err(Error::CheckCondition(CheckConditionError::NoCondition));
    }
    if count > 1 {
        return Err(Error::CheckCondition(CheckConditionError::TooManyConditions(count)));
    }
    let condition: Condition = if let Some(gt) = check.greater_than {
        Condition::GreaterThan(gt)
    } else if check.upper_bound.is_some() && check.lower_bound.is_some() {
        let u = check.upper_bound.unwrap();
        let l = check.lower_bound.unwrap();
        Condition::Between { upper_bound: u, lower_bound: l }
    } else {
        match check.flag {
            Some(FlagSetting::On) => Condition::FlagEq(true),
            Some(FlagSetting::Off) => Condition::FlagEq(false),
            None => {
                proof {
                    assert(false);
                }
                Condition::FlagEq(false)
            },
        }
    };
    proof {
        assert(condition == cond_of(check@));
    }
    let data: CheckData = match (check.check, condition) {
        (Metric::Altitude, Condition::GreaterThan(v)) => CheckData::Altitude(
            FloatCondition::GreaterThan(v),
        ),
        (Metric::Altitude, Condition::Between { upper_bound, lower_bound }) => CheckData::Altitude(
            FloatCondition::Between { upper_bound, lower_bound },
        ),
        (Metric::Apogee, Condition::FlagEq(b)) => CheckData::ApogeeFlag(FlagCondition(b)),
        (Metric::Pyro1Continuity, Condition::FlagEq(b)) => CheckData::Pyro1Continuity(
            FlagCondition(b),
        ),
        (Metric::Pyro2Continuity, Condition::FlagEq(b)) => CheckData::Pyro2Continuity(
            FlagCondition(b),
        ),
        (Metric::Pyro3Continuity, Condition::FlagEq(b)) => CheckData::Pyro3Continuity(
            FlagCondition(b),
        ),
        _ => {
            return Err(Error::CheckTypeMismatch);
        },
    };
    if check.transition.is_some() && check.abort.is_some() {
        return Err(Error::ConflictingOutcome);
    }
    let transition: Option<StateTransition> = match &check.transition {
        Some(name) => {
            proof {
                lemma_find_name_from_bounds(table@, name@, 0);
            }
            Some(StateTransition::Transition(table.get_index(name)?))
        },
        None => match &check.abort {
            Some(name) => {
                proof {
                    lemma_find_name_from_bounds(table@, name@, 0);
                }
                Some(StateTransition::Abort(table.get_index(name)?))
            },
            None => None,
        },
    };
    Ok(lowered::Check::new(data, transition))
}

/// Exclusivity: a check that sets no condition shape fails with
/// `NoCondition`, and one that sets more than one shape fails with
/// `TooManyConditions` carrying the count — for every check and every
/// name table.
pub proof fn lemma_condition_exclusivity(c: CheckU, names: Seq<Seq<char>>)
    ensures
        !unmatched_bound(c) && cond_count(c) == 0 ==> convert_check_spec(c, names) == Err::<
            lowered::Check,
            ErrorV,
        >(ErrorV::CheckCondition(CheckConditionError::NoCondition)),
        !unmatched_bound(c) && cond_count(c) > 1 ==> convert_check_spec(c, names) == Err::<
            lowered::Check,
            ErrorV,
        >(ErrorV::CheckCondition(CheckConditionError::TooManyConditions(cond_count(c) as usize))),
{
}

/// Paired bounds: a check that sets only one of `lower_bound` /
/// `upper_bound` fails with `UnmatchedBound`, whatever else it sets.
pub proof fn lemma_paired_bound(c: CheckU, names: Seq<Seq<char>>)
    ensures
        unmatched_bound(c) ==> convert_check_spec(c, names) == Err::<lowered::Check, ErrorV>(
            ErrorV::CheckCondition(CheckConditionError::UnmatchedBound),
        ),
{
}

/// Type compatibility: a condition shape incompatible with the check's
/// target metric fails with `CheckTypeMismatch`; a flag condition on a
/// continuity metric lowers to that metric's flag variant.
pub proof fn lemma_type_compatibility(c: CheckU, names: Seq<Seq<char>>)
    requires
        !unmatched_bound(c),
        cond_count(c) == 1,
    ensures
        c.greater_than is Some && c.check != Metric::Altitude ==> convert_check_spec(c, names)
            == Err::<lowered::Check, ErrorV>(ErrorV::CheckTypeMismatch),
        c.flag is Some && c.check == Metric::Altitude ==> convert_check_spec(c, names) == Err::<
            lowered::Check,
            ErrorV,
        >(ErrorV::CheckTypeMismatch),
        c.flag is Some && c.check == Metric::Pyro1Continuity && c.transition is None
            && c.abort is None ==> convert_check_spec(c, names) == Ok::<lowered::Check, ErrorV>(
            lowered::Check {
                data: CheckData::Pyro1Continuity(
                    FlagCondition(c.flag->Some_0 == FlagSetting::On),
                ),
                transition: None,
            },
        ),
{
}

/// Name resolution: a check whose one outcome names an undeclared state
/// fails with `StateNotFound` carrying that name.
pub proof fn lemma_unresolved_outcome(c: CheckU, names: Seq<Seq<char>>)
    requires
        !unmatched_bound(c),
        cond_count(c) == 1,
        data_for(c.check, cond_of(c)) is Some,
    ensures
        c.transition matches Some(n) && c.abort is None && find_name(names, n) is None
            ==> convert_check_spec(c, names) == Err::<lowered::Check, ErrorV>(
            ErrorV::StateNotFound(c.transition->Some_0),
        ),
        c.abort matches Some(n) && c.transition is None && find_name(names, n) is None
            ==> convert_check_spec(c, names) == Err::<lowered::Check, ErrorV>(
            ErrorV::StateNotFound(c.abort->Some_0),
        ),
{
}

/// Conflicting outcome: a check that sets both `transition` and `abort`
/// fails with `ConflictingOutcome`, whether or not either name resolves.
pub proof fn lemma_conflicting_outcome(c: CheckU, names: Seq<Seq<char>>)
    requires
        !unmatched_bound(c),
        cond_count(c) == 1,
        data_for(c.check, cond_of(c)) is Some,
        c.transition is Some,
        c.abort is Some,
    ensures
        convert_check_spec(c, names) == Err::<lowered::Check, ErrorV>(ErrorV::ConflictingOutcome),
{
}

} // verus!
